use vstd::prelude::*;

verus! {

/// Whether a character counts as whitespace to the lexer.
/// The result of `char::is_whitespace`, a function of the character alone.
pub uninterp spec fn is_whitespace_char(c: char) -> bool;

/// Relies on char::is_whitespace: true exactly for characters with the
/// Unicode `White_Space` property. Within ASCII those are tab, line feed,
/// vertical tab, form feed, carriage return and space.
pub assume_specification[ char::is_whitespace ](c: char) -> (r: bool)
    ensures
        r == is_whitespace_char(c),
        (c as u32) < 128 ==> r == (c == ' ' || c == '\t' || c == '\n' || c == '\r' || (c as u32)
            == 11 || (c as u32) == 12),
;

/// Whether a character may continue a name or a variable name.
/// The result of `char::is_alphanumeric`, a function of the character alone.
pub uninterp spec fn is_alphanumeric_char(c: char) -> bool;

/// Relies on char::is_alphanumeric: true exactly for characters in the
/// Unicode categories `Alphabetic` or `Nd`/`Nl`/`No`. Within ASCII those
/// are the letters and the decimal digits.
pub assume_specification[ char::is_alphanumeric ](c: char) -> (r: bool)
    ensures
        r == is_alphanumeric_char(c),
        (c as u32) < 128 ==> r == (('0' <= c && c <= '9') || ('a' <= c && c <= 'z') || ('A' <= c
            && c <= 'Z')),
;

/// Whether a character may continue a numeric literal.
/// The result of `char::is_numeric`, a function of the character alone.
pub uninterp spec fn is_numeric_char(c: char) -> bool;

/// Relies on char::is_numeric: true exactly for characters in the Unicode
/// categories `Nd`/`Nl`/`No`. Within ASCII those are the decimal digits.
pub assume_specification[ char::is_numeric ](c: char) -> (r: bool)
    ensures
        r == is_numeric_char(c),
        (c as u32) < 128 ==> r == ('0' <= c && c <= '9'),
;

/// An ASCII decimal digit.
pub open spec fn is_ascii_digit_char(c: char) -> bool {
    '0' <= c && c <= '9'
}

} // verus!
