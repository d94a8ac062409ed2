//! What the library relies on from std for text: UTF-8 validation, decimal
//! integer parsing, and the byte order of text.

use vstd::prelude::*;
use vstd::string::StringSliceAdditionalSpecFns;
use vstd::utf8::*;

verus! {

/// `c` is an ASCII decimal digit.
pub open spec fn is_digit(c: char) -> bool {
    48 <= (c as u32) <= 57
}

/// Value of a sequence of decimal digits, most significant first.
pub open spec fn digits_value(d: Seq<char>) -> int
    decreases d.len(),
{
    if d.len() == 0 {
        0
    } else {
        10 * digits_value(d.drop_last()) + ((d.last() as u32) - 48)
    }
}

/// `d` is a non-empty sequence of decimal digits.
pub open spec fn all_digits(d: Seq<char>) -> bool {
    d.len() > 0 && forall|i: int| 0 <= i < d.len() ==> is_digit(#[trigger] d[i])
}

/// The integer that `t` writes in decimal: an optional `+` or `-` sign followed by
/// one or more digits, and nothing else.
pub open spec fn decimal_value(t: Seq<char>) -> Option<int> {
    if t.len() > 0 && t[0] == '-' && all_digits(t.drop_first()) {
        Some(-digits_value(t.drop_first()))
    } else if t.len() > 0 && t[0] == '+' && all_digits(t.drop_first()) {
        Some(digits_value(t.drop_first()))
    } else if all_digits(t) {
        Some(digits_value(t))
    } else {
        None
    }
}

/// The `i32` that `t` writes in decimal, if it writes one within range.
pub open spec fn decimal_i32(t: Seq<char>) -> Option<i32> {
    match decimal_value(t) {
        Some(v) => if i32::MIN <= v <= i32::MAX { Some(v as i32) } else { None },
        None => None,
    }
}

/// Lexicographic comparison of two byte sequences.
pub open spec fn lex_cmp(a: Seq<u8>, b: Seq<u8>) -> std::cmp::Ordering
    decreases a.len(),
{
    if a.len() == 0 {
        if b.len() == 0 { std::cmp::Ordering::Equal } else { std::cmp::Ordering::Less }
    } else if b.len() == 0 {
        std::cmp::Ordering::Greater
    } else if a[0] < b[0] {
        std::cmp::Ordering::Less
    } else if a[0] > b[0] {
        std::cmp::Ordering::Greater
    } else {
        lex_cmp(a.drop_first(), b.drop_first())
    }
}

/// Two byte sequences compare equal exactly when they are the same.
pub proof fn lemma_lex_cmp_equal(a: Seq<u8>, b: Seq<u8>)
    ensures
        (lex_cmp(a, b) == std::cmp::Ordering::Equal) <==> a == b,
    decreases a.len(),
{
    if a.len() > 0 && b.len() > 0 && a[0] == b[0] {
        lemma_lex_cmp_equal(a.drop_first(), b.drop_first());
        if a.drop_first() == b.drop_first() {
            assert(a =~= seq![a[0]] + a.drop_first());
            assert(b =~= seq![b[0]] + b.drop_first());
        }
    }
    if a.len() == 0 && b.len() == 0 {
        assert(a =~= b);
    }
    if a == b && a.len() > 0 {
        assert(a.drop_first() == b.drop_first());
    }
}

/// The error of `std::str::from_utf8`, carried through unchanged.
#[verifier::external_type_specification]
#[verifier::external_body]
pub struct ExUtf8Error(std::str::Utf8Error);

/// The error of parsing an integer, carried through unchanged.
#[verifier::external_type_specification]
#[verifier::external_body]
pub struct ExParseIntError(std::num::ParseIntError);

/// Relies on `std::str::from_utf8`: it succeeds exactly on valid UTF-8, and the
/// text it returns is made of the given bytes.
#[verifier::external_body]
pub(crate) fn utf8_text(b: &[u8]) -> (r: Result<&str, std::str::Utf8Error>)
    ensures
        r is Ok <==> valid_utf8(b@),
        r is Ok ==> r->Ok_0.spec_bytes() == b@,
{
    std::str::from_utf8(b)
}

/// Relies on `str::parse::<i32>`: it accepts exactly an optional `+` or `-` sign
/// followed by decimal digits whose value fits in an `i32`, and returns that value.
#[verifier::external_body]
pub(crate) fn parse_i32(s: &str) -> (r: Result<i32, std::num::ParseIntError>)
    ensures
        r is Ok <==> decimal_i32(s@) is Some,
        r is Ok ==> r->Ok_0 == decimal_i32(s@)->Some_0,
{
    s.parse::<i32>()
}

} // verus!
