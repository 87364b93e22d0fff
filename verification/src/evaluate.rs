use crate::data::JsonataData;
use crate::environment::{Binding, Builtin, Environment, HostFunction};
use crate::error::Error;
use crate::expression::{Atom, AtomView, Expression, ExpressionView, NumericBinaryOperator, Variable, VariableView};
use vstd::prelude::*;

verus! {

/// What evaluating an expression yields in the specification: a value, a
/// typed failure, or an outcome that a host-registered function decides
/// and the specification leaves open.
pub enum EvalOutcome<T> {
    Value(T),
    Fail(Error),
    Host,
}

/// What evaluating a list of expressions yields: all their values, the
/// first failure, or an outcome a host-registered function decides.
pub enum ListOutcome<T> {
    Values(Seq<T>),
    Fail(Error),
    Host,
}

/// Whether an evaluation result agrees with a specified outcome: a `Host`
/// outcome admits any result.
pub open spec fn outcome_matches<T>(o: EvalOutcome<T>, r: Result<T, Error>) -> bool {
    match o {
        EvalOutcome::Value(v) => r == Ok::<T, Error>(v),
        EvalOutcome::Fail(e) => r == Err::<T, Error>(e),
        EvalOutcome::Host => true,
    }
}

/// The host's arithmetic operation an operator stands for.
pub open spec fn spec_apply_op<T: JsonataData>(op: NumericBinaryOperator, a: u64, b: u64) -> u64 {
    match op {
        NumericBinaryOperator::Add => T::spec_add(a, b),
        NumericBinaryOperator::Mul => T::spec_mul(a, b),
        NumericBinaryOperator::Sub => T::spec_sub(a, b),
        NumericBinaryOperator::Div => T::spec_div(a, b),
        NumericBinaryOperator::Mod => T::spec_rem(a, b),
    }
}

/// Applies a numeric operator to two encodings, matching `spec_apply_op`.
fn apply_numeric_op<T: JsonataData>(op: &NumericBinaryOperator, a: u64, b: u64) -> (r: u64)
    ensures
        r == spec_apply_op::<T>(*op, a, b),
{
    match op {
        NumericBinaryOperator::Add => T::num_add(a, b),
        NumericBinaryOperator::Mul => T::num_mul(a, b),
        NumericBinaryOperator::Sub => T::num_sub(a, b),
        NumericBinaryOperator::Div => T::num_div(a, b),
        NumericBinaryOperator::Mod => T::num_rem(a, b),
    }
}

/// What evaluating `e` against context `data` under `env` yields.
///
/// This is the whole meaning of evaluation: literals build numbers, names
/// look fields up, numeric operators coerce both sides, the path operator
/// drills into one value or maps over a sequence dropping failed elements,
/// and variables resolve through the environment. Only a call of a
/// host-registered function leaves the outcome open (`Host`).
pub open spec fn spec_eval<T: JsonataData, F>(
    e: ExpressionView,
    data: T,
    env: Map<Seq<char>, Binding<T, F>>,
) -> EvalOutcome<T>
    decreases e, 0int,
{
    match e {
        ExpressionView::Atom(a) => match a {
            AtomView::Number(s) => EvalOutcome::Value(T::spec_from_num(T::spec_literal(s))),
            AtomView::Name(n) => match data.spec_field(n) {
                Some(v) => EvalOutcome::Value(v),
                None => EvalOutcome::Fail(Error::NameNotFound),
            },
            AtomView::String(_s) => EvalOutcome::Fail(Error::Unsupported),
            AtomView::End => EvalOutcome::Fail(Error::Unsupported),
        },
        ExpressionView::BinaryNumeric(op, l, r) => match spec_eval(*l, data, env) {
            EvalOutcome::Fail(e1) => EvalOutcome::Fail(e1),
            EvalOutcome::Host => EvalOutcome::Host,
            EvalOutcome::Value(lv) => match lv.spec_num() {
                None => EvalOutcome::Fail(Error::T2001),
                Some(a) => match spec_eval(*r, data, env) {
                    EvalOutcome::Fail(e2) => EvalOutcome::Fail(e2),
                    EvalOutcome::Host => EvalOutcome::Host,
                    EvalOutcome::Value(rv) => match rv.spec_num() {
                        None => EvalOutcome::Fail(Error::T2002),
                        Some(b) => EvalOutcome::Value(
                            T::spec_from_num(spec_apply_op::<T>(op, a, b)),
                        ),
                    },
                },
            },
        },
        ExpressionView::Unary(_op, l) => match spec_eval(*l, data, env) {
            EvalOutcome::Fail(e1) => EvalOutcome::Fail(e1),
            EvalOutcome::Host => EvalOutcome::Host,
            EvalOutcome::Value(lv) => match lv.spec_num() {
                None => EvalOutcome::Fail(Error::D1002),
                Some(a) => EvalOutcome::Value(T::spec_from_num(T::spec_neg(a))),
            },
        },
        ExpressionView::Path(l, r) => match spec_eval(*l, data, env) {
            EvalOutcome::Fail(e1) => EvalOutcome::Fail(e1),
            EvalOutcome::Host => EvalOutcome::Host,
            EvalOutcome::Value(lv) => match lv.spec_elements() {
                Some(elems) => match spec_map_path(*r, elems, env) {
                    ListOutcome::Values(vs) => EvalOutcome::Value(T::spec_from_elements(vs)),
                    ListOutcome::Fail(e1) => EvalOutcome::Fail(e1),
                    ListOutcome::Host => EvalOutcome::Host,
                },
                None => spec_eval(*r, lv, env),
            },
        },
        ExpressionView::Variable(name, v) => match v {
            VariableView::Value => if env.contains_key(name) {
                match env[name] {
                    Binding::Value(val) => EvalOutcome::Value(val),
                    Binding::Function(_f) => EvalOutcome::Fail(Error::FunctionUsedAsValue),
                    Binding::Builtin(_b) => EvalOutcome::Fail(Error::FunctionUsedAsValue),
                }
            } else {
                EvalOutcome::Fail(Error::UnboundVariable)
            },
            VariableView::Function(args) => if env.contains_key(name) {
                match env[name] {
                    Binding::Value(_val) => EvalOutcome::Fail(Error::NotAFunction),
                    Binding::Function(_f) => match spec_eval_args(args, data, env) {
                        ListOutcome::Fail(e1) => EvalOutcome::Fail(e1),
                        _ => EvalOutcome::Host,
                    },
                    Binding::Builtin(b) => match spec_eval_args(args, data, env) {
                        ListOutcome::Fail(e1) => EvalOutcome::Fail(e1),
                        ListOutcome::Host => EvalOutcome::Host,
                        ListOutcome::Values(vals) => spec_builtin::<T>(b, vals),
                    },
                }
            } else {
                EvalOutcome::Fail(Error::UnboundVariable)
            },
        },
    }
}

/// Evaluating `rhs` against each element in turn, keeping the values of
/// the elements that succeed and dropping the ones that fail.
pub open spec fn spec_map_path<T: JsonataData, F>(
    rhs: ExpressionView,
    elems: Seq<T>,
    env: Map<Seq<char>, Binding<T, F>>,
) -> ListOutcome<T>
    decreases rhs, elems.len() + 1,
{
    if elems.len() == 0 {
        ListOutcome::Values(Seq::empty())
    } else {
        match spec_eval(rhs, elems[0], env) {
            EvalOutcome::Host => ListOutcome::Host,
            EvalOutcome::Fail(_e) => spec_map_path(rhs, elems.drop_first(), env),
            EvalOutcome::Value(v) => match spec_map_path(rhs, elems.drop_first(), env) {
                ListOutcome::Values(rest) => ListOutcome::Values(seq![v] + rest),
                ListOutcome::Fail(e1) => ListOutcome::Fail(e1),
                ListOutcome::Host => ListOutcome::Host,
            },
        }
    }
}

/// Evaluating argument expressions left to right against one context,
/// stopping at the first failure.
pub open spec fn spec_eval_args<T: JsonataData, F>(
    args: Seq<ExpressionView>,
    data: T,
    env: Map<Seq<char>, Binding<T, F>>,
) -> ListOutcome<T>
    decreases args, 0int,
{
    if args.len() == 0 {
        ListOutcome::Values(Seq::empty())
    } else {
        match spec_eval(args[0], data, env) {
            EvalOutcome::Fail(e1) => ListOutcome::Fail(e1),
            EvalOutcome::Host => ListOutcome::Host,
            EvalOutcome::Value(v) => match spec_eval_args(args.drop_first(), data, env) {
                ListOutcome::Values(rest) => ListOutcome::Values(seq![v] + rest),
                ListOutcome::Fail(e1) => ListOutcome::Fail(e1),
                ListOutcome::Host => ListOutcome::Host,
            },
        }
    }
}

/// What a built-in function returns for the given argument values.
pub open spec fn spec_builtin<T: JsonataData>(b: Builtin, vals: Seq<T>) -> EvalOutcome<T> {
    match b {
        Builtin::Sum => if vals.len() != 1 {
            EvalOutcome::Fail(Error::ArgumentTypeMismatch)
        } else {
            match vals[0].spec_elements() {
                None => EvalOutcome::Fail(Error::ArgumentTypeMismatch),
                Some(elems) => EvalOutcome::Value(
                    T::spec_from_num(spec_sum_fold::<T>(elems, T::spec_zero())),
                ),
            }
        },
    }
}

/// Summation: folds the numeric coercions of the elements onto `acc` from
/// the left, skipping elements that do not coerce to a number.
pub open spec fn spec_sum_fold<T: JsonataData>(elems: Seq<T>, acc: u64) -> u64
    decreases elems.len(),
{
    if elems.len() == 0 {
        acc
    } else {
        match elems[0].spec_num() {
            Some(b) => spec_sum_fold::<T>(elems.drop_first(), T::spec_add(acc, b)),
            None => spec_sum_fold::<T>(elems.drop_first(), acc),
        }
    }
}

/// The built-in summation: expects exactly one argument, a sequence, and
/// returns the total of the numeric coercions of its elements, skipping
/// the elements that are not numeric.
pub fn sum<T: JsonataData>(args: Vec<T>) -> (r: Result<T, Error>)
    ensures
        outcome_matches(spec_builtin::<T>(Builtin::Sum, args@), r),
{
    if args.len() != 1 {
        return Err(Error::ArgumentTypeMismatch);
    }
    let first = &args[0];
    match first.as_array() {
        None => Err(Error::ArgumentTypeMismatch),
        Some(elems) => {
            let ghost all = elems@;
            let mut acc: u64 = T::num_zero();
            let mut i: usize = 0;
            proof {
                assert(all.skip(0) =~= all);
            }
            while i < elems.len()
                invariant
                    i <= elems.len(),
                    all == elems@,
                    spec_sum_fold::<T>(all, T::spec_zero()) == spec_sum_fold::<T>(
                        all.skip(i as int),
                        acc,
                    ),
                decreases elems.len() - i,
            {
                proof {
                    assert(all.skip(i as int).drop_first() =~= all.skip(i + 1));
                    assert(all.skip(i as int)[0] == all[i as int]);
                }
                match elems[i].as_f64() {
                    Some(b) => {
                        acc = T::num_add(acc, b);
                    },
                    None => {},
                }
                i = i + 1;
            }
            proof {
                assert(all.skip(all.len() as int) =~= Seq::<T>::empty());
            }
            Ok(T::from_f64(acc))
        },
    }
}

/// The result of a built-in function, matching `spec_builtin`.
fn call_builtin<T: JsonataData>(b: &Builtin, args: Vec<T>) -> (r: Result<T, Error>)
    ensures
        outcome_matches(spec_builtin::<T>(*b, args@), r),
{
    match b {
        Builtin::Sum => sum(args),
    }
}

/// Evaluates `expr` against the context `data` under `environment`.
///
/// Evaluation is stateless: the result is a function of the tree, the
/// environment and the given root data alone (up to what host-registered
/// functions return), so repeated evaluations of one compiled expression
/// with different data do not interfere.
pub fn evaluate<T: JsonataData, F: HostFunction<T>>(
    expr: &Expression,
    data: &T,
    environment: &Environment<T, F>,
) -> (r: Result<T, Error>)
    ensures
        outcome_matches(spec_eval(expr@, *data, environment@), r),
    decreases expr,
{
    match expr {
        Expression::Atom(a) => match a {
            Atom::Number(s) => Ok(T::from_f64(T::from_literal(s.as_str()))),
            Atom::Name(n) => match data.get_field(n.as_str()) {
                Some(v) => Ok(v),
                None => Err(Error::NameNotFound),
            },
            Atom::String(_s) => Err(Error::Unsupported),
            Atom::End => Err(Error::Unsupported),
        },
        Expression::BinaryNumeric(op, l, r) => {
            let lv = match evaluate(l, data, environment) {
                Ok(v) => v,
                Err(e) => {
                    return Err(e);
                },
            };
            let a = match lv.as_f64() {
                Some(a) => a,
                None => {
                    return Err(Error::T2001);
                },
            };
            let rv = match evaluate(r, data, environment) {
                Ok(v) => v,
                Err(e) => {
                    return Err(e);
                },
            };
            let b = match rv.as_f64() {
                Some(b) => b,
                None => {
                    return Err(Error::T2002);
                },
            };
            Ok(T::from_f64(apply_numeric_op::<T>(op, a, b)))
        },
        Expression::Unary(_op, l) => {
            let lv = match evaluate(l, data, environment) {
                Ok(v) => v,
                Err(e) => {
                    return Err(e);
                },
            };
            match lv.as_f64() {
                Some(a) => Ok(T::from_f64(T::num_neg(a))),
                None => Err(Error::D1002),
            }
        },
        Expression::Path(l, r) => {
            let lv = match evaluate(l, data, environment) {
                Ok(v) => v,
                Err(e) => {
                    return Err(e);
                },
            };
            match lv.as_array() {
                None => evaluate(r, &lv, environment),
                Some(elems) => {
                    let ghost all = elems@;
                    let ghost env = environment@;
                    let ghost whole = spec_map_path(r@, all, env);
                    let mut results: Vec<T> = Vec::new();
                    let mut i: usize = 0;
                    proof {
                        assert(all.skip(0) =~= all);
                        match spec_map_path(r@, all.skip(0), env) {
                            ListOutcome::Values(rest) => {
                                assert(results@ + rest =~= rest);
                            },
                            _ => {},
                        }
                    }
                    #[verifier::loop_isolation(false)]
                    while i < elems.len()
                        invariant
                            i <= elems.len(),
                            whole is Host || (match spec_map_path(r@, all.skip(i as int), env) {
                                ListOutcome::Values(rest) => whole == ListOutcome::Values(
                                    results@ + rest,
                                ),
                                ListOutcome::Fail(e1) => whole == ListOutcome::<T>::Fail(e1),
                                ListOutcome::Host => whole is Host,
                            }),
                        decreases elems.len() - i,
                    {
                        proof {
                            assert(all.skip(i as int).drop_first() =~= all.skip(i + 1));
                            assert(all.skip(i as int)[0] == all[i as int]);
                        }
                        match evaluate(r, &elems[i], environment) {
                            Ok(v) => {
                                let ghost prev = results@;
                                results.push(v);
                                proof {
                                    match spec_map_path(r@, all.skip(i + 1), env) {
                                        ListOutcome::Values(rest) => {
                                            assert(prev + (seq![results@[prev.len() as int]]
                                                + rest) =~= results@ + rest);
                                        },
                                        _ => {},
                                    }
                                }
                            },
                            Err(_e) => {},
                        }
                        i = i + 1;
                    }
                    proof {
                        assert(all.skip(all.len() as int) =~= Seq::<T>::empty());
                        match spec_map_path(r@, all.skip(all.len() as int), env) {
                            ListOutcome::Values(rest) => {
                                assert(results@ + rest =~= results@);
                            },
                            _ => {},
                        }
                    }
                    Ok(T::from_array(results))
                },
            }
        },
        Expression::Variable(name, v) => match v {
            Variable::Value => match environment.lookup(name) {
                None => Err(Error::UnboundVariable),
                Some(Binding::Value(val)) => Ok(val.duplicate()),
                Some(Binding::Function(_f)) => Err(Error::FunctionUsedAsValue),
                Some(Binding::Builtin(_b)) => Err(Error::FunctionUsedAsValue),
            },
            Variable::Function(args) => match environment.lookup(name) {
                None => Err(Error::UnboundVariable),
                Some(Binding::Value(_val)) => Err(Error::NotAFunction),
                Some(binding) => {
                    let ghost all = crate::expression::spec_exprs_view(args@);
                    let ghost env = environment@;
                    let ghost whole = spec_eval_args(all, *data, env);
                    let mut values: Vec<T> = Vec::new();
                    let mut i: usize = 0;
                    proof {
                        crate::expression::lemma_exprs_view(args@);
                        assert(all.skip(0) =~= all);
                        match spec_eval_args(all.skip(0), *data, env) {
                            ListOutcome::Values(rest) => {
                                assert(values@ + rest =~= rest);
                            },
                            _ => {},
                        }
                    }
                    #[verifier::loop_isolation(false)]
                    while i < args.len()
                        invariant
                            i <= args.len(),
                            whole is Host || (match spec_eval_args(
                                all.skip(i as int),
                                *data,
                                env,
                            ) {
                                ListOutcome::Values(rest) => whole == ListOutcome::Values(
                                    values@ + rest,
                                ),
                                ListOutcome::Fail(e1) => whole == ListOutcome::<T>::Fail(e1),
                                ListOutcome::Host => whole is Host,
                            }),
                        decreases args.len() - i,
                    {
                        proof {
                            assert(all.skip(i as int).drop_first() =~= all.skip(i + 1));
                            assert(all.skip(i as int)[0] == all[i as int]);
                            assert(decreases_to!(*v => *args));
                            assert(decreases_to!(*args => args@[i as int]));
                        }
                        match evaluate(&args[i], data, environment) {
                            Ok(val) => {
                                let ghost prev = values@;
                                values.push(val);
                                proof {
                                    match spec_eval_args(all.skip(i + 1), *data, env) {
                                        ListOutcome::Values(rest) => {
                                            assert(prev + (seq![values@[prev.len() as int]]
                                                + rest) =~= values@ + rest);
                                        },
                                        _ => {},
                                    }
                                }
                            },
                            Err(e) => {
                                return Err(e);
                            },
                        }
                        i = i + 1;
                    }
                    proof {
                        assert(all.skip(all.len() as int) =~= Seq::<ExpressionView>::empty());
                        match spec_eval_args(all.skip(all.len() as int), *data, env) {
                            ListOutcome::Values(rest) => {
                                assert(values@ + rest =~= values@);
                            },
                            _ => {},
                        }
                    }
                    match binding {
                        Binding::Builtin(b) => call_builtin(b, values),
                        Binding::Function(f) => f.call(values),
                        Binding::Value(_val) => Err(Error::NotAFunction),
                    }
                },
            },
        },
    }
}

} // verus!
