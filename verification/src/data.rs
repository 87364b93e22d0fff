use vstd::prelude::*;

verus! {

/// The capability interface a host's value type must provide for the
/// evaluator to work on it. The host implements it for its own document
/// type; the evaluator is verified against the contracts below, so its
/// results are pinned down in terms of the host's own field, number and
/// sequence semantics.
///
/// Numbers cross this interface as the host's 64-bit numeric encoding, an
/// opaque `u64`. For a host whose numbers are IEEE754 doubles these are the
/// bits of the double, `num_add` and its siblings are the double
/// operations, and `from_literal` reads a run of decimal digits the way the
/// host reads a number. Each executable method must agree with its
/// specification-level counterpart, which only says that the host's
/// operations are functions of their operands.
pub trait JsonataData: Sized {
    /// The value of the named field, if this value has one.
    spec fn spec_field(&self, name: Seq<char>) -> Option<Self>;

    /// The numeric coercion of this value: its encoding, or nothing.
    spec fn spec_num(&self) -> Option<u64>;

    /// The value built from a numeric encoding.
    spec fn spec_from_num(n: u64) -> Self;

    /// The elements of this value, if it is a sequence.
    spec fn spec_elements(&self) -> Option<Seq<Self>>;

    /// The sequence value built from the given elements.
    spec fn spec_from_elements(elems: Seq<Self>) -> Self;

    /// The numeric encoding of an integer literal written in decimal digits.
    spec fn spec_literal(digits: Seq<char>) -> u64;

    /// The encoding of the number zero.
    spec fn spec_zero() -> u64;

    /// The host's arithmetic on numeric encodings.
    spec fn spec_add(a: u64, b: u64) -> u64;

    spec fn spec_sub(a: u64, b: u64) -> u64;

    spec fn spec_mul(a: u64, b: u64) -> u64;

    spec fn spec_div(a: u64, b: u64) -> u64;

    spec fn spec_rem(a: u64, b: u64) -> u64;

    spec fn spec_neg(a: u64) -> u64;

    /// Field lookup by name; absent both when the value is no container and
    /// when the key is missing.
    fn get_field(&self, field: &str) -> (r: Option<Self>)
        ensures
            r == self.spec_field(field@),
    ;

    /// Numeric coercion: the value's 64-bit numeric encoding, or `None` for
    /// a non-numeric value.
    fn as_f64(&self) -> (r: Option<u64>)
        ensures
            r == self.spec_num(),
    ;

    /// Numeric construction from a 64-bit numeric encoding.
    fn from_f64(n: u64) -> (r: Self)
        ensures
            r == Self::spec_from_num(n),
    ;

    /// Whether the value is a sequence.
    fn is_array(&self) -> (r: bool)
        ensures
            r == (self.spec_elements() is Some),
    ;

    /// The elements of a sequence value, in order.
    fn as_array(&self) -> (r: Option<Vec<Self>>)
        ensures
            match r {
                Some(v) => self.spec_elements() == Some(v@),
                None => self.spec_elements() is None,
            },
    ;

    /// A sequence value built from the given elements.
    fn from_array(array: Vec<Self>) -> (r: Self)
        ensures
            r == Self::spec_from_elements(array@),
    ;

    /// The numeric encoding of an integer literal.
    fn from_literal(digits: &str) -> (r: u64)
        ensures
            r == Self::spec_literal(digits@),
    ;

    /// The encoding of zero, the starting point of summation.
    fn num_zero() -> (r: u64)
        ensures
            r == Self::spec_zero(),
    ;

    fn num_add(a: u64, b: u64) -> (r: u64)
        ensures
            r == Self::spec_add(a, b),
    ;

    fn num_sub(a: u64, b: u64) -> (r: u64)
        ensures
            r == Self::spec_sub(a, b),
    ;

    fn num_mul(a: u64, b: u64) -> (r: u64)
        ensures
            r == Self::spec_mul(a, b),
    ;

    fn num_div(a: u64, b: u64) -> (r: u64)
        ensures
            r == Self::spec_div(a, b),
    ;

    fn num_rem(a: u64, b: u64) -> (r: u64)
        ensures
            r == Self::spec_rem(a, b),
    ;

    fn num_neg(a: u64) -> (r: u64)
        ensures
            r == Self::spec_neg(a),
    ;

    /// A copy that is the same value.
    fn duplicate(&self) -> (r: Self)
        ensures
            r == *self,
    ;
}

} // verus!
