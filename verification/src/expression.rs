use vstd::prelude::*;
use vstd::string::StringExecFns;

verus! {

/// A leaf of the syntax tree. A `Number` holds its literal digits as
/// written in the source.
#[derive(Debug, PartialEq, Eq)]
pub enum Atom {
    Number(String),
    Name(String),
    String(String),
    End,
}

/// The binary operators that compute on numbers.
#[derive(Debug, Clone, Copy, PartialEq, Eq, Structural)]
pub enum NumericBinaryOperator {
    Add,
    Mul,
    Sub,
    Div,
    Mod,
}

/// The unary operators that compute on numbers.
#[derive(Debug, Clone, Copy, PartialEq, Eq, Structural)]
pub enum NumericUnaryOperator {
    Negate,
}

/// How a variable reference is used: as a plain value, or called as a
/// function with a list of argument expressions.
#[derive(Debug, PartialEq, Eq)]
pub enum Variable {
    Value,
    Function(Vec<Expression>),
}

/// The syntax tree: an immutable, owned tree built by the parser and walked
/// by the evaluator.
#[derive(Debug, PartialEq, Eq)]
pub enum Expression {
    Atom(Atom),
    BinaryNumeric(NumericBinaryOperator, Box<Expression>, Box<Expression>),
    Path(Box<Expression>, Box<Expression>),
    Unary(NumericUnaryOperator, Box<Expression>),
    Variable(String, Variable),
}

/// The mathematical shape of an `Atom`.
pub enum AtomView {
    Number(Seq<char>),
    Name(Seq<char>),
    String(Seq<char>),
    End,
}

/// The mathematical shape of a `Variable`.
pub enum VariableView {
    Value,
    Function(Seq<ExpressionView>),
}

/// The mathematical shape of an `Expression`.
pub enum ExpressionView {
    Atom(AtomView),
    BinaryNumeric(NumericBinaryOperator, Box<ExpressionView>, Box<ExpressionView>),
    Path(Box<ExpressionView>, Box<ExpressionView>),
    Unary(NumericUnaryOperator, Box<ExpressionView>),
    Variable(Seq<char>, VariableView),
}

impl View for Atom {
    type V = AtomView;

    open spec fn view(&self) -> AtomView {
        match self {
            Atom::Number(s) => AtomView::Number(s@),
            Atom::Name(s) => AtomView::Name(s@),
            Atom::String(s) => AtomView::String(s@),
            Atom::End => AtomView::End,
        }
    }
}

impl View for Expression {
    type V = ExpressionView;

    open spec fn view(&self) -> ExpressionView
        decreases self,
    {
        match self {
            Expression::Atom(a) => ExpressionView::Atom(a@),
            Expression::BinaryNumeric(op, l, r) => ExpressionView::BinaryNumeric(
                *op,
                Box::new((**l)@),
                Box::new((**r)@),
            ),
            Expression::Path(l, r) => ExpressionView::Path(Box::new((**l)@), Box::new((**r)@)),
            Expression::Unary(op, l) => ExpressionView::Unary(*op, Box::new((**l)@)),
            Expression::Variable(name, v) => ExpressionView::Variable(
                name@,
                match v {
                    Variable::Value => VariableView::Value,
                    Variable::Function(args) => VariableView::Function(spec_exprs_view(args@)),
                },
            ),
        }
    }
}

/// The views of a sequence of expressions, in order.
pub open spec fn spec_exprs_view(s: Seq<Expression>) -> Seq<ExpressionView>
    decreases s,
{
    if s.len() == 0 {
        Seq::empty()
    } else {
        seq![s[0]@] + spec_exprs_view(s.drop_first())
    }
}

/// Each element's view stands at its own place in the viewed sequence.
pub proof fn lemma_exprs_view(s: Seq<Expression>)
    ensures
        spec_exprs_view(s).len() == s.len(),
        forall|i: int| 0 <= i < s.len() ==> spec_exprs_view(s)[i] == s[i]@,
    decreases s.len(),
{
    if s.len() > 0 {
        lemma_exprs_view(s.drop_first());
        assert(spec_exprs_view(s) == seq![s[0]@] + spec_exprs_view(s.drop_first()));
        assert forall|i: int| 0 <= i < s.len() implies spec_exprs_view(s)[i] == s[i]@ by {
            if i > 0 {
                assert(spec_exprs_view(s)[i] == spec_exprs_view(s.drop_first())[i - 1]);
                assert(s.drop_first()[i - 1] == s[i]);
            }
        }
    } else {
        assert(spec_exprs_view(s) =~= Seq::<ExpressionView>::empty());
    }
}

/// The text of a binary operator in the canonical form.
pub open spec fn spec_binary_op_text(op: NumericBinaryOperator) -> Seq<char> {
    match op {
        NumericBinaryOperator::Add => "+"@,
        NumericBinaryOperator::Mul => "*"@,
        NumericBinaryOperator::Sub => "-"@,
        NumericBinaryOperator::Div => "/"@,
        NumericBinaryOperator::Mod => "%"@,
    }
}

/// The canonical prefix form of an expression: operators lead, each
/// compound expression is parenthesized, and atoms print as their text.
pub open spec fn spec_canonical(e: ExpressionView) -> Seq<char>
    decreases e,
{
    match e {
        ExpressionView::Atom(a) => match a {
            AtomView::Number(s) => s,
            AtomView::Name(s) => s,
            AtomView::String(s) => "\""@ + s + "\""@,
            AtomView::End => Seq::empty(),
        },
        ExpressionView::BinaryNumeric(op, l, r) => "("@ + spec_binary_op_text(op) + " "@
            + spec_canonical(*l) + " "@ + spec_canonical(*r) + ")"@,
        ExpressionView::Path(l, r) => "(. "@ + spec_canonical(*l) + " "@ + spec_canonical(*r)
            + ")"@,
        ExpressionView::Unary(_op, l) => "(- "@ + spec_canonical(*l) + ")"@,
        ExpressionView::Variable(name, v) => match v {
            VariableView::Value => "$"@ + name,
            VariableView::Function(args) => "$"@ + name + "("@ + spec_canonical_list(args) + ")"@,
        },
    }
}

/// The canonical texts of a list of argument expressions, one after the
/// other with nothing in between.
pub open spec fn spec_canonical_list(args: Seq<ExpressionView>) -> Seq<char>
    decreases args,
{
    if args.len() == 0 {
        Seq::empty()
    } else {
        spec_canonical(args[0]) + spec_canonical_list(args.drop_first())
    }
}

/// Extending an argument list by one extends its canonical text at the end.
proof fn lemma_canonical_list_take(args: Seq<ExpressionView>, i: int)
    requires
        0 <= i < args.len(),
    ensures
        spec_canonical_list(args.take(i + 1)) == spec_canonical_list(args.take(i))
            + spec_canonical(args[i]),
    decreases i,
{
    if i == 0 {
        assert(args.take(1).drop_first() =~= Seq::<ExpressionView>::empty());
        assert(args.take(0) =~= Seq::<ExpressionView>::empty());
        assert(spec_canonical(args[0]) + Seq::<char>::empty() =~= spec_canonical(args[0]));
        assert(Seq::<char>::empty() + spec_canonical(args[0]) =~= spec_canonical(args[0]));
    } else {
        lemma_canonical_list_take(args.drop_first(), i - 1);
        assert(args.take(i + 1).drop_first() =~= args.drop_first().take(i));
        assert(args.take(i).drop_first() =~= args.drop_first().take(i - 1));
        assert(args.take(i + 1)[0] == args[0]);
        assert(args.take(i)[0] == args[0]);
        assert(args.drop_first()[i - 1] == args[i]);
        assert(spec_canonical(args[0]) + (spec_canonical_list(args.drop_first().take(i - 1))
            + spec_canonical(args[i])) =~= (spec_canonical(args[0]) + spec_canonical_list(
            args.drop_first().take(i - 1),
        )) + spec_canonical(args[i]));
    }
}

/// The text of a binary operator, matching `spec_binary_op_text`.
fn binary_op_text(op: &NumericBinaryOperator) -> (r: &'static str)
    ensures
        r@ == spec_binary_op_text(*op),
{
    match op {
        NumericBinaryOperator::Add => "+",
        NumericBinaryOperator::Mul => "*",
        NumericBinaryOperator::Sub => "-",
        NumericBinaryOperator::Div => "/",
        NumericBinaryOperator::Mod => "%",
    }
}

impl Expression {
    /// Renders the expression in its canonical prefix form.
    pub fn canonical(&self) -> (r: String)
        ensures
            r@ == spec_canonical(self@),
        decreases self,
    {
        match self {
            Expression::Atom(a) => match a {
                Atom::Number(s) => s.clone(),
                Atom::Name(s) => s.clone(),
                Atom::String(s) => {
                    let mut out = String::new();
                    out.append("\"");
                    out.append(s.as_str());
                    out.append("\"");
                    proof {
                        assert(out@ =~= spec_canonical(self@));
                    }
                    out
                },
                Atom::End => String::new(),
            },
            Expression::BinaryNumeric(op, l, r) => {
                let mut out = String::new();
                out.append("(");
                out.append(binary_op_text(op));
                out.append(" ");
                let ls = l.canonical();
                out.append(ls.as_str());
                out.append(" ");
                let rs = r.canonical();
                out.append(rs.as_str());
                out.append(")");
                proof {
                    assert(out@ =~= spec_canonical(self@));
                }
                out
            },
            Expression::Path(l, r) => {
                let mut out = String::new();
                out.append("(. ");
                let ls = l.canonical();
                out.append(ls.as_str());
                out.append(" ");
                let rs = r.canonical();
                out.append(rs.as_str());
                out.append(")");
                proof {
                    assert(out@ =~= spec_canonical(self@));
                }
                out
            },
            Expression::Unary(_op, l) => {
                let mut out = String::new();
                out.append("(- ");
                let ls = l.canonical();
                out.append(ls.as_str());
                out.append(")");
                proof {
                    assert(out@ =~= spec_canonical(self@));
                }
                out
            },
            Expression::Variable(name, v) => {
                let mut out = String::new();
                out.append("$");
                out.append(name.as_str());
                match v {
                    Variable::Value => {
                        proof {
                            assert(out@ =~= spec_canonical(self@));
                        }
                        out
                    },
                    Variable::Function(args) => {
                        out.append("(");
                        let ghost argviews = spec_exprs_view(args@);
                        let ghost head = "$"@ + name@ + "("@;
                        let mut i: usize = 0;
                        proof {
                            lemma_exprs_view(args@);
                            assert(argviews.take(0) =~= Seq::<ExpressionView>::empty());
                            assert(out@ =~= head + spec_canonical_list(argviews.take(0)));
                        }
                        #[verifier::loop_isolation(false)]
                        while i < args.len()
                            invariant
                                i <= args.len(),
                                argviews == spec_exprs_view(args@),
                                argviews.len() == args@.len(),
                                forall|j: int| 0 <= j < args@.len() ==> argviews[j] == args@[j]@,
                                out@ == head + spec_canonical_list(argviews.take(i as int)),
                            decreases args.len() - i,
                        {
                            proof {
                                assert(decreases_to!(*self => *v));
                                assert(decreases_to!(*v => *args));
                                assert(decreases_to!(*args => args@[i as int]));
                            }
                            let s = args[i].canonical();
                            out.append(s.as_str());
                            proof {
                                lemma_canonical_list_take(argviews, i as int);
                                assert(head + (spec_canonical_list(argviews.take(i as int))
                                    + spec_canonical(argviews[i as int])) =~= (head
                                    + spec_canonical_list(argviews.take(i as int)))
                                    + spec_canonical(argviews[i as int]));
                            }
                            i = i + 1;
                        }
                        out.append(")");
                        proof {
                            assert(argviews.take(args.len() as int) =~= argviews);
                            assert(out@ =~= spec_canonical(self@));
                        }
                        out
                    },
                }
            },
        }
    }
}

} // verus!
