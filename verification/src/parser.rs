use crate::error::Error;
use crate::expression::{
    lemma_exprs_view, spec_exprs_view, Atom, AtomView, Expression, ExpressionView,
    NumericUnaryOperator, Variable, VariableView,
};
use crate::lexer::{
    lemma_next_token, lemma_next_token_stable, lemma_scan, spec_next_token, spec_skip_ws, CharClass,
    Lexer,
};
use crate::token::{spec_operator_of, Operator, Token, TokenView};
use vstd::prelude::*;

verus! {

/// The deepest nesting of sub-expressions the parser accepts; deeper input
/// is rejected with `ExpressionTooComplex` instead of exhausting the stack.
pub const MAX_DEPTH: u32 = 100;

/// The binding power of a prefix operator. Only minus may stand as a prefix.
pub fn prefix_binding_power(op: &Operator) -> (r: ((), u8))
    requires
        *op is Minus,
    ensures
        r.1 == 5,
{
    // the precondition admits minus only; the second arm keeps the match total
    match op {
        Operator::Minus => ((), 5),
        _ => ((), 5),
    }
}

/// The left and right binding powers of the infix operators: addition and
/// subtraction bind weakest, then the multiplicative operators, then the
/// path operator, whose chain leans right.
pub open spec fn spec_infix_bp(op: Operator) -> Option<(u8, u8)> {
    match op {
        Operator::Plus => Some((1u8, 2u8)),
        Operator::Minus => Some((1u8, 2u8)),
        Operator::Star => Some((3u8, 4u8)),
        Operator::Slash => Some((3u8, 4u8)),
        Operator::Percentage => Some((3u8, 4u8)),
        Operator::Dot => Some((6u8, 5u8)),
        _ => None,
    }
}

/// The binding powers of an infix operator, by the table of `spec_infix_bp`.
pub fn infix_binding_power(op: &Operator) -> (r: Option<(u8, u8)>)
    ensures
        r == spec_infix_bp(*op),
{
    match op {
        Operator::Plus | Operator::Minus => Some((1, 2)),
        Operator::Star | Operator::Slash | Operator::Percentage => Some((3, 4)),
        Operator::Dot => Some((6, 5)),
        _ => None,
    }
}

/// The node an infix operator builds from its two sides.
pub open spec fn spec_combine(op: Operator, lhs: ExpressionView, rhs: ExpressionView) -> ExpressionView {
    match op {
        Operator::Dot => ExpressionView::Path(Box::new(lhs), Box::new(rhs)),
        Operator::Plus => ExpressionView::BinaryNumeric(
            crate::expression::NumericBinaryOperator::Add,
            Box::new(lhs),
            Box::new(rhs),
        ),
        Operator::Minus => ExpressionView::BinaryNumeric(
            crate::expression::NumericBinaryOperator::Sub,
            Box::new(lhs),
            Box::new(rhs),
        ),
        Operator::Star => ExpressionView::BinaryNumeric(
            crate::expression::NumericBinaryOperator::Mul,
            Box::new(lhs),
            Box::new(rhs),
        ),
        Operator::Slash => ExpressionView::BinaryNumeric(
            crate::expression::NumericBinaryOperator::Div,
            Box::new(lhs),
            Box::new(rhs),
        ),
        Operator::Percentage => ExpressionView::BinaryNumeric(
            crate::expression::NumericBinaryOperator::Mod,
            Box::new(lhs),
            Box::new(rhs),
        ),
        _ => lhs,
    }
}

/// Builds the node for an infix operator, matching `spec_combine`.
fn combine(op: Operator, lhs: Expression, rhs: Expression) -> (r: Expression)
    requires
        spec_infix_bp(op) is Some,
    ensures
        r@ == spec_combine(op, lhs@, rhs@),
{
    match op {
        Operator::Dot => Expression::Path(Box::new(lhs), Box::new(rhs)),
        Operator::Plus => Expression::BinaryNumeric(
            crate::expression::NumericBinaryOperator::Add,
            Box::new(lhs),
            Box::new(rhs),
        ),
        Operator::Minus => Expression::BinaryNumeric(
            crate::expression::NumericBinaryOperator::Sub,
            Box::new(lhs),
            Box::new(rhs),
        ),
        Operator::Star => Expression::BinaryNumeric(
            crate::expression::NumericBinaryOperator::Mul,
            Box::new(lhs),
            Box::new(rhs),
        ),
        Operator::Slash => Expression::BinaryNumeric(
            crate::expression::NumericBinaryOperator::Div,
            Box::new(lhs),
            Box::new(rhs),
        ),
        _ => Expression::BinaryNumeric(
            crate::expression::NumericBinaryOperator::Mod,
            Box::new(lhs),
            Box::new(rhs),
        ),
    }
}

/// Where parsing goes on after a sub-parse that ended at `end`: at `end`
/// itself. The guards only keep the position inside the text and moving
/// forward, which every sub-parse already does.
pub open spec fn spec_continue(src: Seq<char>, pos: int, end: int) -> int {
    let base = spec_skip_ws(src, pos);
    let a: int = if end <= base {
        base + 1
    } else {
        end
    };
    if a > src.len() {
        src.len() as int
    } else {
        a
    }
}

/// The expression beginning at `pos`, parsed with precedence climbing at
/// minimum binding power `min_bp`, and the position just past it.
///
/// The first token seeds the left-hand side: atoms stand for themselves, a
/// left parenthesis recurses and demands its match, a prefix minus wraps its
/// operand, a variable may carry a parenthesized argument list. Then
/// `spec_expr_loop` extends the seed with infix operators.
pub open spec fn spec_expr_bp(src: Seq<char>, pos: int, min_bp: u8, depth: nat) -> (Result<
    ExpressionView,
    Error,
>, int)
    decreases depth, src.len() - pos, 1int
        when 0 <= pos <= src.len()
        via spec_expr_bp_decreases
{
    if depth == 0 {
        (Err(Error::ExpressionTooComplex), pos)
    } else {
        match spec_next_token(src, pos) {
            None => (Ok(ExpressionView::Atom(AtomView::End)), src.len() as int),
            Some((Err(e), end)) => (Err(e), end),
            Some((Ok(tok), end)) => match tok {
                TokenView::Number(s) => spec_expr_loop(
                    src,
                    end,
                    min_bp,
                    ExpressionView::Atom(AtomView::Number(s)),
                    depth,
                ),
                TokenView::Name(s) => spec_expr_loop(
                    src,
                    end,
                    min_bp,
                    ExpressionView::Atom(AtomView::Name(s)),
                    depth,
                ),
                TokenView::String(s) => spec_expr_loop(
                    src,
                    end,
                    min_bp,
                    ExpressionView::Atom(AtomView::String(s)),
                    depth,
                ),
                TokenView::Operator(op) => if op == Operator::ParenLeft {
                    let (ir, iend) = spec_expr_bp(src, end, 0, (depth - 1) as nat);
                    match ir {
                        Err(e) => (Err(e), iend),
                        Ok(inner) => match spec_next_token(src, iend) {
                            None => (Err(Error::UnbalancedParens), src.len() as int),
                            Some((Err(e), e2)) => (Err(e), e2),
                            Some((Ok(TokenView::Operator(Operator::ParenRight)), e2)) => spec_expr_loop(
                                src,
                                spec_continue(src, pos, e2),
                                min_bp,
                                inner,
                                depth,
                            ),
                            Some((Ok(_), e2)) => (Err(Error::UnbalancedParens), e2),
                        },
                    }
                } else if op == Operator::Minus {
                    let (rr, rend) = spec_expr_bp(src, end, 5, (depth - 1) as nat);
                    match rr {
                        Err(e) => (Err(e), rend),
                        Ok(rhs) => spec_expr_loop(
                            src,
                            spec_continue(src, pos, rend),
                            min_bp,
                            ExpressionView::Unary(NumericUnaryOperator::Negate, Box::new(rhs)),
                            depth,
                        ),
                    }
                } else {
                    (Err(Error::UnexpectedToken), end)
                },
                TokenView::Variable(name) => match spec_next_token(src, end) {
                    Some((Ok(TokenView::Operator(Operator::ParenLeft)), e2)) => {
                        let (ar, aend) = spec_call_args(src, e2, true, (depth - 1) as nat);
                        match ar {
                            Err(e) => (Err(e), aend),
                            Ok(args) => spec_expr_loop(
                                src,
                                spec_continue(src, pos, aend),
                                min_bp,
                                ExpressionView::Variable(name, VariableView::Function(args)),
                                depth,
                            ),
                        }
                    },
                    _ => spec_expr_loop(
                        src,
                        end,
                        min_bp,
                        ExpressionView::Variable(name, VariableView::Value),
                        depth,
                    ),
                },
            },
        }
    }
}

#[via_fn]
proof fn spec_expr_bp_decreases(src: Seq<char>, pos: int, min_bp: u8, depth: nat) {
    lemma_scan(src, pos, CharClass::Whitespace);
    lemma_next_token(src, pos);
    match spec_next_token(src, pos) {
        Some((_, end)) => {
            lemma_next_token(src, end);
        },
        None => {},
    }
}

/// The precedence-climbing loop: while the next token is an infix operator
/// whose left binding power reaches `min_bp`, parse its right-hand side at
/// the operator's right binding power and fold it into `lhs`; stop at a
/// weaker operator, at the end of the input, or before a token that cannot
/// continue an expression.
pub open spec fn spec_expr_loop(
    src: Seq<char>,
    pos: int,
    min_bp: u8,
    lhs: ExpressionView,
    depth: nat,
) -> (Result<ExpressionView, Error>, int)
    decreases depth, src.len() - pos, 0int
        when 0 <= pos <= src.len()
        via spec_expr_loop_decreases
{
    if depth == 0 {
        (Err(Error::ExpressionTooComplex), pos)
    } else {
        match spec_next_token(src, pos) {
        None => (Ok(lhs), src.len() as int),
        Some((Err(e), _end)) => (Err(e), spec_skip_ws(src, pos)),
        Some((Ok(TokenView::Operator(op)), end)) => match spec_infix_bp(op) {
            Some((l_bp, r_bp)) => if l_bp < min_bp {
                (Ok(lhs), spec_skip_ws(src, pos))
            } else {
                let (rr, rend) = spec_expr_bp(src, end, r_bp, (depth - 1) as nat);
                match rr {
                    Err(e) => (Err(e), rend),
                    Ok(rhs) => spec_expr_loop(
                        src,
                        spec_continue(src, pos, rend),
                        min_bp,
                        spec_combine(op, lhs, rhs),
                        depth,
                    ),
                }
            },
            None => (Ok(lhs), spec_skip_ws(src, pos)),
        },
            Some((Ok(_), _end)) => (Err(Error::UnexpectedToken), spec_skip_ws(src, pos)),
        }
    }
}

#[via_fn]
proof fn spec_expr_loop_decreases(
    src: Seq<char>,
    pos: int,
    min_bp: u8,
    lhs: ExpressionView,
    depth: nat,
) {
    lemma_scan(src, pos, CharClass::Whitespace);
    lemma_next_token(src, pos);
}

/// The arguments of a function call, read after the opening parenthesis:
/// either a closing parenthesis at once (no arguments), or expressions
/// separated by commas up to the closing parenthesis. Ends just past the
/// closing parenthesis.
pub open spec fn spec_call_args(src: Seq<char>, pos: int, first: bool, depth: nat) -> (Result<
    Seq<ExpressionView>,
    Error,
>, int)
    decreases depth, src.len() - pos, 0int
        when 0 <= pos <= src.len()
        via spec_call_args_decreases
{
    if depth == 0 {
        (Err(Error::ExpressionTooComplex), pos)
    } else if first && (spec_next_token(src, pos) matches Some((
        Ok(TokenView::Operator(Operator::ParenRight)),
        _,
    ))) {
        let end = spec_next_token(src, pos)->Some_0.1;
        (Ok(Seq::empty()), end)
    } else {
        let (ar, aend) = spec_expr_bp(src, spec_skip_ws(src, pos), 0, (depth - 1) as nat);
        match ar {
            Err(e) => (Err(e), aend),
            Ok(arg) => match spec_next_token(src, aend) {
                None => (Err(Error::UnbalancedParens), src.len() as int),
                Some((Err(e), e3)) => (Err(e), e3),
                Some((Ok(TokenView::Operator(Operator::Comma)), e3)) => {
                    let (rr, rend) = spec_call_args(src, spec_continue(src, pos, e3), false, (depth - 1) as nat);
                    match rr {
                        Err(e) => (Err(e), rend),
                        Ok(rest) => (Ok(seq![arg] + rest), rend),
                    }
                },
                Some((Ok(TokenView::Operator(Operator::ParenRight)), e3)) => (Ok(seq![arg]), e3),
                Some((Ok(_), e3)) => (Err(Error::UnexpectedToken), e3),
            },
        }
    }
}

#[via_fn]
proof fn spec_call_args_decreases(src: Seq<char>, pos: int, first: bool, depth: nat) {
    lemma_scan(src, pos, CharClass::Whitespace);
    lemma_next_token(src, pos);
}

/// Skipping whitespace before the loop does not change what it parses.
proof fn lemma_loop_ws(src: Seq<char>, pos: int, min_bp: u8, lhs: ExpressionView, depth: nat)
    requires
        0 <= pos <= src.len(),
        depth >= 1,
    ensures
        spec_expr_loop(src, spec_skip_ws(src, pos), min_bp, lhs, depth) == spec_expr_loop(
            src,
            pos,
            min_bp,
            lhs,
            depth,
        ),
{
    lemma_scan(src, pos, CharClass::Whitespace);
    lemma_next_token_stable(src, pos);
}

/// Whether a parse result agrees with a result of the specification.
pub open spec fn expr_result_matches(r: Result<Expression, Error>, s: Result<
    ExpressionView,
    Error,
>) -> bool {
    match (r, s) {
        (Ok(e), Ok(v)) => e@ == v,
        (Err(e), Err(se)) => e == se,
        _ => false,
    }
}

/// Whether a parsed argument list agrees with one of the specification.
pub open spec fn args_result_matches(r: Result<Vec<Expression>, Error>, s: Result<
    Seq<ExpressionView>,
    Error,
>) -> bool {
    match (r, s) {
        (Ok(v), Ok(sv)) => spec_exprs_view(v@) == sv,
        (Err(e), Err(se)) => e == se,
        _ => false,
    }
}

/// Reads the arguments of a function call, the opening parenthesis already
/// consumed; ends just past the closing parenthesis.
fn parse_call_args(lexer: &mut Lexer, first: bool, depth: u32) -> (r: Result<Vec<Expression>, Error>)
    requires
        old(lexer).wf(),
    ensures
        final(lexer).wf(),
        final(lexer).src() == old(lexer).src(),
        old(lexer).pos() <= final(lexer).pos() <= old(lexer).src().len(),
        ({
            let (sr, send) = spec_call_args(
                old(lexer).src(),
                old(lexer).pos(),
                first,
                depth as nat,
            );
            args_result_matches(r, sr) && final(lexer).pos() == send
        }),
    decreases depth,
{
    let ghost src = lexer.src();
    let ghost p0 = lexer.pos();
    proof {
        lexer.wf_bounds();
        lemma_next_token(src, p0);
    }
    if depth == 0 {
        return Err(Error::ExpressionTooComplex);
    }
    let starts_closed = match lexer.peek() {
        Some(Ok(Token::Operator(Operator::ParenRight))) => true,
        _ => false,
    };
    if first && starts_closed {
        let _ = lexer.next();
        proof {
            assert(spec_exprs_view(Seq::<Expression>::empty()) =~= Seq::<
                ExpressionView,
            >::empty());
        }
        return Ok(Vec::new());
    }
    let arg = match expr_bp(lexer, 0, depth - 1) {
        Ok(a) => a,
        Err(e) => {
            return Err(e);
        },
    };
    let ghost aend = lexer.pos();
    proof {
        lexer.wf_bounds();
        lemma_next_token(src, aend);
    }
    match lexer.next() {
        None => Err(Error::UnbalancedParens),
        Some(Err(e)) => Err(e),
        Some(Ok(Token::Operator(Operator::Comma))) => {
            let mut rest = match parse_call_args(lexer, false, depth - 1) {
                Ok(v) => v,
                Err(e) => {
                    return Err(e);
                },
            };
            let ghost tail = rest@;
            rest.insert(0, arg);
            proof {
                lemma_exprs_view(rest@);
                lemma_exprs_view(tail);
                assert(spec_exprs_view(rest@) =~= seq![rest@[0]@] + spec_exprs_view(tail));
            }
            Ok(rest)
        },
        Some(Ok(Token::Operator(Operator::ParenRight))) => {
            let mut out: Vec<Expression> = Vec::new();
            out.push(arg);
            proof {
                lemma_exprs_view(out@);
                assert(spec_exprs_view(out@) =~= seq![out@[0]@]);
            }
            Ok(out)
        },
        Some(Ok(_)) => Err(Error::UnexpectedToken),
    }
}

/// Parses one expression with precedence climbing at minimum binding power
/// `min_bp`, within the remaining nesting budget `depth`.
fn expr_bp(lexer: &mut Lexer, min_bp: u8, depth: u32) -> (r: Result<Expression, Error>)
    requires
        old(lexer).wf(),
    ensures
        final(lexer).wf(),
        final(lexer).src() == old(lexer).src(),
        old(lexer).pos() <= final(lexer).pos() <= old(lexer).src().len(),
        ({
            let (sr, send) = spec_expr_bp(
                old(lexer).src(),
                old(lexer).pos(),
                min_bp,
                depth as nat,
            );
            expr_result_matches(r, sr) && final(lexer).pos() == send
        }),
    decreases depth,
{
    let ghost src = lexer.src();
    let ghost p0 = lexer.pos();
    proof {
        lexer.wf_bounds();
        lemma_next_token(src, p0);
    }
    if depth == 0 {
        return Err(Error::ExpressionTooComplex);
    }
    let t = lexer.next();
    let mut lhs: Expression;
    match t {
        None => {
            return Ok(Expression::Atom(Atom::End));
        },
        Some(Err(e)) => {
            return Err(e);
        },
        Some(Ok(Token::Number(s))) => {
            lhs = Expression::Atom(Atom::Number(s));
        },
        Some(Ok(Token::Name(s))) => {
            lhs = Expression::Atom(Atom::Name(s));
        },
        Some(Ok(Token::String(s))) => {
            lhs = Expression::Atom(Atom::String(s));
        },
        Some(Ok(Token::Operator(op))) => {
            match op {
                Operator::ParenLeft => {
                    let inner = match expr_bp(lexer, 0, depth - 1) {
                        Ok(x) => x,
                        Err(e) => {
                            return Err(e);
                        },
                    };
                    proof {
                        lexer.wf_bounds();
                        lemma_next_token(src, lexer.pos());
                    }
                    match lexer.next() {
                        Some(Ok(Token::Operator(Operator::ParenRight))) => {
                            lhs = inner;
                        },
                        None => {
                            return Err(Error::UnbalancedParens);
                        },
                        Some(Err(e)) => {
                            return Err(e);
                        },
                        Some(Ok(_)) => {
                            return Err(Error::UnbalancedParens);
                        },
                    }
                },
                Operator::Minus => {
                    let bp = prefix_binding_power(&op);
                    let rhs = match expr_bp(lexer, bp.1, depth - 1) {
                        Ok(x) => x,
                        Err(e) => {
                            return Err(e);
                        },
                    };
                    lhs = Expression::Unary(NumericUnaryOperator::Negate, Box::new(rhs));
                },
                _ => {
                    return Err(Error::UnexpectedToken);
                },
            }
        },
        Some(Ok(Token::Variable(name))) => {
            proof {
                lexer.wf_bounds();
                lemma_next_token(src, lexer.pos());
            }
            let calls = match lexer.peek() {
                Some(Ok(Token::Operator(Operator::ParenLeft))) => true,
                _ => false,
            };
            if calls {
                let _ = lexer.next();
                let args = match parse_call_args(lexer, true, depth - 1) {
                    Ok(v) => v,
                    Err(e) => {
                        return Err(e);
                    },
                };
                lhs = Expression::Variable(name, Variable::Function(args));
            } else {
                lhs = Expression::Variable(name, Variable::Value);
                proof {
                    lemma_loop_ws(
                        src,
                        spec_next_token(src, p0)->Some_0.1,
                        min_bp,
                        lhs@,
                        depth as nat,
                    );
                }
            }
        },
    }
    proof {
        assert(spec_expr_bp(src, p0, min_bp, depth as nat) == spec_expr_loop(
            src,
            lexer.pos(),
            min_bp,
            lhs@,
            depth as nat,
        ));
    }
    loop
        invariant
            lexer.wf(),
            lexer.src() == src,
            src == old(lexer).src(),
            p0 == old(lexer).pos(),
            depth >= 1,
            p0 <= lexer.pos() <= src.len(),
            spec_expr_bp(src, p0, min_bp, depth as nat) == spec_expr_loop(
                src,
                lexer.pos(),
                min_bp,
                lhs@,
                depth as nat,
            ),
        decreases src.len() - lexer.pos(),
    {
        let ghost p = lexer.pos();
        proof {
            lexer.wf_bounds();
            lemma_next_token(src, p);
            lemma_loop_ws(src, p, min_bp, lhs@, depth as nat);
        }
        let op = match lexer.peek() {
            None => {
                return Ok(lhs);
            },
            Some(Err(e)) => {
                let e2 = *e;
                return Err(e2);
            },
            Some(Ok(Token::Operator(op2))) => *op2,
            Some(Ok(_)) => {
                return Err(Error::UnexpectedToken);
            },
        };
        match infix_binding_power(&op) {
            None => {
                return Ok(lhs);
            },
            Some(bp) => {
                if bp.0 < min_bp {
                    return Ok(lhs);
                }
                let _ = lexer.next();
                let rhs = match expr_bp(lexer, bp.1, depth - 1) {
                    Ok(x) => x,
                    Err(e) => {
                        return Err(e);
                    },
                };
                lhs = combine(op, lhs, rhs);
            },
        }
    }
}

/// The whole source parsed as one expression at top level.
pub open spec fn spec_parse(src: Seq<char>) -> Result<ExpressionView, Error> {
    spec_expr_bp(src, 0, 0, MAX_DEPTH as nat).0
}

/// A malformed input of the unterminated-string kind is rejected with its
/// typed error: whenever the expression starts with a string literal whose
/// closing quote never comes, parsing returns `UnterminatedString` — it
/// never aborts and never yields a tree.
pub proof fn lemma_unterminated_string_rejected(src: Seq<char>)
    requires
        ({
            let start = spec_skip_ws(src, 0);
            &&& 0 <= start < src.len()
            &&& src[start] == '"'
            &&& forall|i: int| start < i < src.len() ==> src[i] != '"'
        }),
    ensures
        spec_parse(src) == Err::<ExpressionView, Error>(Error::UnterminatedString),
{
    let start = spec_skip_ws(src, 0);
    lemma_scan(src, 0, CharClass::Whitespace);
    lemma_scan(src, start + 1, CharClass::NotQuote);
    let e = crate::lexer::spec_scan(src, start + 1, CharClass::NotQuote);
    assert(e == src.len());
}

/// A malformed input of the reserved-word kind is rejected with its typed
/// error: an expression starting with a reserved word parses to
/// `Unsupported`, never a tree and never an abort.
pub proof fn lemma_reserved_word_rejected(src: Seq<char>)
    requires
        ({
            let start = spec_skip_ws(src, 0);
            let end = crate::lexer::spec_scan(src, start + 1, CharClass::Alphanumeric);
            &&& 0 <= start < src.len()
            &&& spec_operator_of(src[start]) is None
            &&& src[start] != '$'
            &&& src[start] != '"'
            &&& !crate::chars::is_ascii_digit_char(src[start])
            &&& crate::lexer::is_reserved_word(src.subrange(start, end))
        }),
    ensures
        spec_parse(src) == Err::<ExpressionView, Error>(Error::Unsupported),
{
    lemma_scan(src, 0, CharClass::Whitespace);
    let start = spec_skip_ws(src, 0);
    lemma_scan(src, start + 1, CharClass::Alphanumeric);
}

/// Parses the lexer's remaining text as one expression.
pub fn parse(lexer: Lexer) -> (r: Result<Expression, Error>)
    requires
        lexer.wf(),
    ensures
        expr_result_matches(
            r,
            spec_expr_bp(lexer.src(), lexer.pos(), 0, MAX_DEPTH as nat).0,
        ),
{
    let mut lx = lexer;
    expr_bp(&mut lx, 0, MAX_DEPTH)
}

/// A parser over a source text: a lexer and the precedence-climbing
/// algorithm on top of it.
pub struct Parser {
    lexer: Lexer,
}

impl Parser {
    /// The source text the parser reads.
    pub closed spec fn src(&self) -> Seq<char> {
        self.lexer.src()
    }

    /// The parser starts at the beginning of a well-formed lexer.
    pub closed spec fn wf(&self) -> bool {
        self.lexer.wf() && self.lexer.pos() == 0
    }

    pub fn new(source: &str) -> (r: Parser)
        ensures
            r.wf(),
            r.src() == source@,
    {
        Parser { lexer: Lexer::new(source) }
    }

    /// Parses the whole source as one expression.
    pub fn parse(self) -> (r: Result<Expression, Error>)
        requires
            self.wf(),
        ensures
            expr_result_matches(r, spec_parse(self.src())),
    {
        parse(self.lexer)
    }
}

} // verus!
