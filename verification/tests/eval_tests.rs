use jsonata_rs::{jsonata, Binding, Error, HostFunction, JsonataData};
use serde_json::{Number, Value};

/// The embedding host used by these tests: a JSON document. Numbers cross
/// the capability interface as the bits of an IEEE754 double; a non-finite
/// result, which JSON cannot hold, becomes null rather than aborting.
#[derive(Clone, Debug, PartialEq)]
struct Json(Value);

fn json_number(x: f64) -> Value {
    match Number::from_f64(x) {
        Some(n) => Value::Number(n),
        None => Value::Null,
    }
}

impl JsonataData for Json {
    fn get_field(&self, field: &str) -> Option<Json> {
        self.0.get(field).cloned().map(Json)
    }

    fn as_f64(&self) -> Option<u64> {
        self.0.as_f64().map(f64::to_bits)
    }

    fn from_f64(n: u64) -> Json {
        Json(json_number(f64::from_bits(n)))
    }

    fn is_array(&self) -> bool {
        self.0.is_array()
    }

    fn as_array(&self) -> Option<Vec<Json>> {
        self.0
            .as_array()
            .map(|items| items.iter().cloned().map(Json).collect())
    }

    fn from_array(array: Vec<Json>) -> Json {
        Json(Value::Array(array.into_iter().map(|item| item.0).collect()))
    }

    fn from_literal(digits: &str) -> u64 {
        digits.parse::<f64>().unwrap_or(f64::NAN).to_bits()
    }

    fn num_zero() -> u64 {
        0.0f64.to_bits()
    }

    fn num_add(a: u64, b: u64) -> u64 {
        (f64::from_bits(a) + f64::from_bits(b)).to_bits()
    }

    fn num_sub(a: u64, b: u64) -> u64 {
        (f64::from_bits(a) - f64::from_bits(b)).to_bits()
    }

    fn num_mul(a: u64, b: u64) -> u64 {
        (f64::from_bits(a) * f64::from_bits(b)).to_bits()
    }

    fn num_div(a: u64, b: u64) -> u64 {
        (f64::from_bits(a) / f64::from_bits(b)).to_bits()
    }

    fn num_rem(a: u64, b: u64) -> u64 {
        (f64::from_bits(a) % f64::from_bits(b)).to_bits()
    }

    fn num_neg(a: u64) -> u64 {
        (-f64::from_bits(a)).to_bits()
    }

    fn duplicate(&self) -> Json {
        self.clone()
    }

    // The specification-level members of the trait exist only for
    // verification and are never called at run time; the compiler still
    // wants bodies for them.
    fn spec_field(&self, _name: vstd::seq::Seq<char>) -> Option<Json> {
        None
    }

    fn spec_num(&self) -> Option<u64> {
        None
    }

    fn spec_from_num(_n: u64) -> Json {
        Json(Value::Null)
    }

    fn spec_elements(&self) -> Option<vstd::seq::Seq<Json>> {
        None
    }

    fn spec_from_elements(_elems: vstd::seq::Seq<Json>) -> Json {
        Json(Value::Null)
    }

    fn spec_literal(_digits: vstd::seq::Seq<char>) -> u64 {
        0
    }

    fn spec_zero() -> u64 {
        0
    }

    fn spec_add(_a: u64, _b: u64) -> u64 {
        0
    }

    fn spec_sub(_a: u64, _b: u64) -> u64 {
        0
    }

    fn spec_mul(_a: u64, _b: u64) -> u64 {
        0
    }

    fn spec_div(_a: u64, _b: u64) -> u64 {
        0
    }

    fn spec_rem(_a: u64, _b: u64) -> u64 {
        0
    }

    fn spec_neg(_a: u64) -> u64 {
        0
    }
}

/// A host without registered functions.
struct NoFn;

impl HostFunction<Json> for NoFn {
    fn call(&self, _args: Vec<Json>) -> Result<Json, Error> {
        Err(Error::NotAFunction)
    }
}

/// The host functions the function-binding tests register.
enum TestFn {
    ConstTen,
    FirstArg,
    SecondArg,
}

impl HostFunction<Json> for TestFn {
    fn call(&self, args: Vec<Json>) -> Result<Json, Error> {
        match self {
            TestFn::ConstTen => Ok(Json(Value::from(10.0))),
            TestFn::FirstArg => Ok(args.first().expect("Should have one arg").clone()),
            TestFn::SecondArg => Ok(args.get(1).expect("Should have two args").clone()),
        }
    }
}

fn object(fields: Vec<(&str, Value)>) -> Json {
    let mut m = serde_json::Map::new();
    for (k, v) in fields {
        m.insert(k.to_string(), v);
    }
    Json(Value::Object(m))
}

fn value_object(fields: Vec<(&str, Value)>) -> Value {
    let mut m = serde_json::Map::new();
    for (k, v) in fields {
        m.insert(k.to_string(), v);
    }
    Value::Object(m)
}

#[test]
fn test_jsonata_function_bindings() {
    let mut expression = jsonata::<Json, TestFn>("$a() * x").unwrap();
    expression.bind("a".to_string(), Binding::Function(TestFn::ConstTen));
    let data = object(vec![("x", Value::from(4.0))]);
    let result = expression.evaluate(&data).unwrap();
    assert_eq!(result, Json(Value::from(40.0)));
}

#[test]
fn test_jsonata_function_bindings_with_args() {
    let mut expression = jsonata::<Json, TestFn>("$a(40)").unwrap();
    expression.bind("a".to_string(), Binding::Function(TestFn::FirstArg));
    let data = object(vec![]);
    let result = expression.evaluate(&data).unwrap();
    assert_eq!(result, Json(Value::from(40.0)));
}

#[test]
fn test_jsonata_value_bindings() {
    let mut expression = jsonata::<Json, NoFn>("$a * x").unwrap();
    expression.bind("a".to_string(), Binding::Value(Json(Value::from(5.0))));
    let data = object(vec![("x", Value::from(4.0))]);
    let result = expression.evaluate(&data).unwrap();
    assert_eq!(result, Json(Value::from(20.0)));
}

#[test]
fn test_jsonata_simple_expression() {
    let data = object(vec![
        ("y", value_object(vec![("b", Value::from(5))])),
        ("x", value_object(vec![("a", Value::from(5))])),
    ]);
    let expression = jsonata::<Json, NoFn>("x.a * y.b").unwrap();
    let result = expression.evaluate(&data).unwrap();
    assert_eq!(result, Json(Value::from(25.0)));
}

fn example_array_data() -> Json {
    let items = vec![
        value_object(vec![("value", Value::from(4))]),
        value_object(vec![("value", Value::from(7))]),
        value_object(vec![("value", Value::from(13))]),
    ];
    object(vec![("example", Value::Array(items))])
}

#[test]
fn test_jsonata_path_array() {
    let expression = jsonata::<Json, NoFn>("example.value").unwrap();
    let result = expression.evaluate(&example_array_data()).unwrap();
    assert_eq!(
        result,
        Json(Value::Array(vec![
            Value::from(4),
            Value::from(7),
            Value::from(13),
        ]))
    );
}

#[test]
fn test_jsonata_buildin_function() {
    let expression = jsonata::<Json, NoFn>("$sum(example.value)").unwrap();
    let result = expression.evaluate(&example_array_data()).unwrap();
    assert_eq!(result, Json(Value::from(24.0)));
}

#[test]
fn test_evaluate_idempotent() {
    let expression = jsonata::<Json, NoFn>("x + 1").unwrap();
    let first = object(vec![("x", Value::from(1.0))]);
    let second = object(vec![("x", Value::from(5.0))]);
    assert_eq!(expression.evaluate(&first).unwrap(), Json(Value::from(2.0)));
    assert_eq!(expression.evaluate(&second).unwrap(), Json(Value::from(6.0)));
    assert_eq!(expression.evaluate(&first).unwrap(), Json(Value::from(2.0)));
}

#[test]
fn test_evaluate_path_drops_failing_elements() {
    let items = vec![
        value_object(vec![("value", Value::from(4))]),
        value_object(vec![("other", Value::from(1))]),
        value_object(vec![("value", Value::from(13))]),
    ];
    let data = object(vec![("example", Value::Array(items))]);
    let expression = jsonata::<Json, NoFn>("example.value").unwrap();
    let result = expression.evaluate(&data).unwrap();
    assert_eq!(
        result,
        Json(Value::Array(vec![Value::from(4), Value::from(13)]))
    );
}

#[test]
fn test_evaluate_call_arguments_in_order() {
    let mut expression = jsonata::<Json, TestFn>("$a(1, 2 + 3)").unwrap();
    expression.bind("a".to_string(), Binding::Function(TestFn::SecondArg));
    let result = expression.evaluate(&object(vec![])).unwrap();
    assert_eq!(result, Json(Value::from(5.0)));
}

#[test]
fn test_evaluate_override_builtin() {
    let mut expression = jsonata::<Json, NoFn>("$sum * 2").unwrap();
    expression.bind("sum".to_string(), Binding::Value(Json(Value::from(5.0))));
    let result = expression.evaluate(&object(vec![])).unwrap();
    assert_eq!(result, Json(Value::from(10.0)));
}

#[test]
fn test_evaluate_left_operand_not_numeric() {
    let data = object(vec![("x", Value::from("abc"))]);
    let expression = jsonata::<Json, NoFn>("x / 2").unwrap();
    assert_eq!(expression.evaluate(&data), Err(Error::T2001));
}

#[test]
fn test_evaluate_right_operand_not_numeric() {
    let data = object(vec![("x", Value::from("abc"))]);
    let expression = jsonata::<Json, NoFn>("2 / x").unwrap();
    assert_eq!(expression.evaluate(&data), Err(Error::T2002));
}

#[test]
fn test_evaluate_negation_of_non_numeric() {
    let data = object(vec![("x", Value::from("abc"))]);
    let expression = jsonata::<Json, NoFn>("-x").unwrap();
    assert_eq!(expression.evaluate(&data), Err(Error::D1002));
}

#[test]
fn test_evaluate_name_not_found() {
    let expression = jsonata::<Json, NoFn>("y").unwrap();
    assert_eq!(expression.evaluate(&object(vec![])), Err(Error::NameNotFound));
}

#[test]
fn test_evaluate_unbound_variable() {
    let expression = jsonata::<Json, NoFn>("$z").unwrap();
    assert_eq!(
        expression.evaluate(&object(vec![])),
        Err(Error::UnboundVariable)
    );
    let call = jsonata::<Json, NoFn>("$z(1)").unwrap();
    assert_eq!(call.evaluate(&object(vec![])), Err(Error::UnboundVariable));
}

#[test]
fn test_evaluate_function_used_as_value() {
    let expression = jsonata::<Json, NoFn>("$sum").unwrap();
    assert_eq!(
        expression.evaluate(&object(vec![])),
        Err(Error::FunctionUsedAsValue)
    );
}

#[test]
fn test_evaluate_not_a_function() {
    let mut expression = jsonata::<Json, NoFn>("$a(1)").unwrap();
    expression.bind("a".to_string(), Binding::Value(Json(Value::from(5.0))));
    assert_eq!(
        expression.evaluate(&object(vec![])),
        Err(Error::NotAFunction)
    );
}

#[test]
fn test_evaluate_sum_argument_mismatch() {
    let not_array = jsonata::<Json, NoFn>("$sum(1)").unwrap();
    assert_eq!(
        not_array.evaluate(&object(vec![])),
        Err(Error::ArgumentTypeMismatch)
    );
    let no_args = jsonata::<Json, NoFn>("$sum()").unwrap();
    assert_eq!(
        no_args.evaluate(&object(vec![])),
        Err(Error::ArgumentTypeMismatch)
    );
}

#[test]
fn test_evaluate_sum_skips_non_numeric() {
    let items = vec![Value::from(4), Value::from("abc"), Value::from(20)];
    let data = object(vec![("xs", Value::Array(items))]);
    let expression = jsonata::<Json, NoFn>("$sum(xs)").unwrap();
    let result = expression.evaluate(&data).unwrap();
    assert_eq!(result, Json(Value::from(24.0)));
}

#[test]
fn test_evaluate_string_literal_unsupported() {
    let expression = jsonata::<Json, NoFn>("\"abc\"").unwrap();
    assert_eq!(expression.evaluate(&object(vec![])), Err(Error::Unsupported));
}

#[test]
fn test_evaluate_modulo() {
    let expression = jsonata::<Json, NoFn>("7 % 4").unwrap();
    let result = expression.evaluate(&object(vec![])).unwrap();
    assert_eq!(result, Json(Value::from(3.0)));
}

/// A host whose every value is one IEEE754 double, for the arithmetic edge
/// cases JSON itself cannot hold.
#[derive(Clone, Debug, PartialEq)]
struct Double(f64);

impl JsonataData for Double {
    fn get_field(&self, _field: &str) -> Option<Double> {
        None
    }

    fn as_f64(&self) -> Option<u64> {
        Some(self.0.to_bits())
    }

    fn from_f64(n: u64) -> Double {
        Double(f64::from_bits(n))
    }

    fn is_array(&self) -> bool {
        false
    }

    fn as_array(&self) -> Option<Vec<Double>> {
        None
    }

    fn from_array(_array: Vec<Double>) -> Double {
        Double(f64::NAN)
    }

    fn from_literal(digits: &str) -> u64 {
        digits.parse::<f64>().unwrap_or(f64::NAN).to_bits()
    }

    fn num_zero() -> u64 {
        0.0f64.to_bits()
    }

    fn num_add(a: u64, b: u64) -> u64 {
        (f64::from_bits(a) + f64::from_bits(b)).to_bits()
    }

    fn num_sub(a: u64, b: u64) -> u64 {
        (f64::from_bits(a) - f64::from_bits(b)).to_bits()
    }

    fn num_mul(a: u64, b: u64) -> u64 {
        (f64::from_bits(a) * f64::from_bits(b)).to_bits()
    }

    fn num_div(a: u64, b: u64) -> u64 {
        (f64::from_bits(a) / f64::from_bits(b)).to_bits()
    }

    fn num_rem(a: u64, b: u64) -> u64 {
        (f64::from_bits(a) % f64::from_bits(b)).to_bits()
    }

    fn num_neg(a: u64) -> u64 {
        (-f64::from_bits(a)).to_bits()
    }

    fn duplicate(&self) -> Double {
        self.clone()
    }

    // The specification-level members of the trait exist only for
    // verification and are never called at run time; the compiler still
    // wants bodies for them.
    fn spec_field(&self, _name: vstd::seq::Seq<char>) -> Option<Double> {
        None
    }

    fn spec_num(&self) -> Option<u64> {
        None
    }

    fn spec_from_num(_n: u64) -> Double {
        Double(f64::NAN)
    }

    fn spec_elements(&self) -> Option<vstd::seq::Seq<Double>> {
        None
    }

    fn spec_from_elements(_elems: vstd::seq::Seq<Double>) -> Double {
        Double(f64::NAN)
    }

    fn spec_literal(_digits: vstd::seq::Seq<char>) -> u64 {
        0
    }

    fn spec_zero() -> u64 {
        0
    }

    fn spec_add(_a: u64, _b: u64) -> u64 {
        0
    }

    fn spec_sub(_a: u64, _b: u64) -> u64 {
        0
    }

    fn spec_mul(_a: u64, _b: u64) -> u64 {
        0
    }

    fn spec_div(_a: u64, _b: u64) -> u64 {
        0
    }

    fn spec_rem(_a: u64, _b: u64) -> u64 {
        0
    }

    fn spec_neg(_a: u64) -> u64 {
        0
    }
}

struct NoDoubleFn;

impl HostFunction<Double> for NoDoubleFn {
    fn call(&self, _args: Vec<Double>) -> Result<Double, Error> {
        Err(Error::NotAFunction)
    }
}

#[test]
fn test_evaluate_division_by_zero_is_infinity() {
    let expression = jsonata::<Double, NoDoubleFn>("1 / 0").unwrap();
    let result = expression.evaluate(&Double(0.0)).unwrap();
    assert!(result.0.is_infinite());
    assert!(result.0 > 0.0);
}

#[test]
fn test_evaluate_double_arithmetic() {
    let expression = jsonata::<Double, NoDoubleFn>("-(4 * 4) + (4 * 4 * 2) % 4").unwrap();
    let result = expression.evaluate(&Double(0.0)).unwrap();
    assert_eq!(result, Double(-16.0));
}
