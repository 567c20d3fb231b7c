//! Arbitrary-precision non-negative integers, provided by `num_bigint::BigUint`
//! behind a small set of trusted wrappers.
//!
//! A `BigUint` is opaque to the verifier.  Its mathematical value is exposed
//! through `big_digits`, the little-endian base-2^64 digit sequence that
//! `BigUint::to_u64_digits` documents, and `big_value`, the natural number those
//! digits denote.  Every wrapper states what the wrapped operation does to that
//! value.

use vstd::prelude::*;

verus! {

/// The little-endian base-2^64 digits of a `BigUint`, as documented for
/// `num_bigint::BigUint::to_u64_digits` and `iter_u64_digits`.
pub uninterp spec fn big_digits(b: num_bigint::BigUint) -> Seq<u64>;

#[verifier::external_type_specification]
#[verifier::external_body]
pub struct ExBigUint(num_bigint::BigUint);

/// The natural number denoted by little-endian base-2^64 digits.
pub open spec fn digits_value(s: Seq<u64>) -> nat
    decreases s.len(),
{
    if s.len() == 0 {
        0
    } else {
        s[0] as nat + 0x1_0000_0000_0000_0000 * digits_value(s.drop_first())
    }
}

/// The natural number held by a `BigUint`.
pub open spec fn big_value(b: num_bigint::BigUint) -> nat {
    digits_value(big_digits(b))
}

/// 10^n.
pub open spec fn pow10(n: nat) -> nat
    decreases n,
{
    if n == 0 {
        1
    } else {
        10 * pow10((n - 1) as nat)
    }
}

/// A power of ten is positive.
pub proof fn lemma_pow10_pos(n: nat)
    ensures
        pow10(n) >= 1,
    decreases n,
{
    if n > 0 {
        lemma_pow10_pos((n - 1) as nat);
    }
}

/// Relies on `<num_bigint::BigUint as Clone>::clone` (a derived clone of the
/// digit vector): the clone holds the same value.
pub assume_specification[ <num_bigint::BigUint as Clone>::clone ](
    b: &num_bigint::BigUint,
) -> (r: num_bigint::BigUint)
    ensures
        r == *b,
;

/// Relies on `<num_bigint::BigUint as From<u64>>::from`: the conversion is
/// value-preserving.
#[verifier::external_body]
pub(crate) fn big_from_u64(x: u64) -> (r: num_bigint::BigUint)
    ensures
        big_value(r) == x as nat,
{
    num_bigint::BigUint::from(x)
}

/// Relies on `Add for &BigUint`: exact addition.
#[verifier::external_body]
pub(crate) fn big_add(a: &num_bigint::BigUint, b: &num_bigint::BigUint) -> (r: num_bigint::BigUint)
    ensures
        big_value(r) == big_value(*a) + big_value(*b),
{
    a + b
}

/// Relies on `Sub for &BigUint`: exact subtraction; panics on underflow, so the
/// smaller operand must be on the right.
#[verifier::external_body]
pub(crate) fn big_sub(a: &num_bigint::BigUint, b: &num_bigint::BigUint) -> (r: num_bigint::BigUint)
    requires
        big_value(*b) <= big_value(*a),
    ensures
        big_value(r) == big_value(*a) - big_value(*b),
{
    a - b
}

/// Relies on `Mul for &BigUint`: exact multiplication.
#[verifier::external_body]
pub(crate) fn big_mul(a: &num_bigint::BigUint, b: &num_bigint::BigUint) -> (r: num_bigint::BigUint)
    ensures
        big_value(r) == big_value(*a) * big_value(*b),
{
    a * b
}

/// Relies on `Div for &BigUint`: quotient rounded toward zero (the floor, for
/// non-negative operands); panics on a zero divisor, which is excluded here.
#[verifier::external_body]
pub(crate) fn big_div(a: &num_bigint::BigUint, b: &num_bigint::BigUint) -> (r: num_bigint::BigUint)
    requires
        big_value(*b) > 0,
    ensures
        big_value(r) == big_value(*a) / big_value(*b),
{
    a / b
}

/// Relies on `BigUint::pow` and `From<u64>`: computes 10^exp exactly.
#[verifier::external_body]
pub(crate) fn big_pow10(exp: u32) -> (r: num_bigint::BigUint)
    ensures
        big_value(r) == pow10(exp as nat),
{
    num_bigint::BigUint::from(10u64).pow(exp)
}

/// Relies on `BigUint::sqrt`: the truncated principal square root.
#[verifier::external_body]
pub(crate) fn big_sqrt(a: &num_bigint::BigUint) -> (r: num_bigint::BigUint)
    ensures
        big_value(r) * big_value(r) <= big_value(*a),
        big_value(*a) < (big_value(r) + 1) * (big_value(r) + 1),
{
    a.sqrt()
}

/// Relies on `PartialEq for BigUint`: equality of the held values.
#[verifier::external_body]
pub(crate) fn big_eq(a: &num_bigint::BigUint, b: &num_bigint::BigUint) -> (r: bool)
    ensures
        r == (big_value(*a) == big_value(*b)),
{
    a == b
}

/// Relies on `Ord for BigUint`: numeric order of the held values.
#[verifier::external_body]
pub(crate) fn big_le(a: &num_bigint::BigUint, b: &num_bigint::BigUint) -> (r: bool)
    ensures
        r == (big_value(*a) <= big_value(*b)),
{
    a <= b
}

/// Relies on `Ord for BigUint`: numeric order of the held values.
#[verifier::external_body]
pub(crate) fn big_lt(a: &num_bigint::BigUint, b: &num_bigint::BigUint) -> (r: bool)
    ensures
        r == (big_value(*a) < big_value(*b)),
{
    a < b
}

/// Relies on `BigUint::to_u64_digits`: the normalized little-endian base-2^64
/// digits of the value, with no trailing zero digit.
#[verifier::external_body]
pub(crate) fn big_to_u64_digits(a: &num_bigint::BigUint) -> (r: Vec<u64>)
    ensures
        r@ == big_digits(*a),
        r@.len() > 0 ==> r@[r@.len() - 1] != 0,
{
    a.to_u64_digits()
}

/// The value of a `BigUint`, if it fits in a `u64`.
pub(crate) fn big_to_u64(a: &num_bigint::BigUint) -> (r: Option<u64>)
    ensures
        big_value(*a) <= u64::MAX ==> r == Some(big_value(*a) as u64),
        big_value(*a) > u64::MAX ==> r is None,
{
    let digits = big_to_u64_digits(a);
    if digits.len() == 0 {
        Some(0)
    } else if digits.len() == 1 {
        proof {
            let ds = big_digits(*a);
            assert(ds.drop_first().len() == 0);
            assert(digits_value(ds.drop_first()) == 0);
            assert(digits_value(ds) == ds[0] as nat);
        }
        Some(digits[0])
    } else {
        proof {
            let ds = big_digits(*a);
            let rest = ds.drop_first();
            assert(rest[rest.len() - 1] == ds[ds.len() - 1]);
            assert(digits_value(rest) > 0) by {
                lemma_digits_value_nonzero_last(rest);
            }
            assert(digits_value(ds) >= 0x1_0000_0000_0000_0000 * digits_value(rest));
        }
        None
    }
}

/// If the last digit of a digit sequence is non-zero, the denoted value is
/// at least 2^64 when the sequence has two or more digits, and positive when
/// it has one.
proof fn lemma_digits_value_nonzero_last(s: Seq<u64>)
    requires
        s.len() > 0,
        s[s.len() - 1] != 0,
    ensures
        digits_value(s) > 0,
    decreases s.len(),
{
    if s.len() > 1 {
        lemma_digits_value_nonzero_last(s.drop_first());
    }
}

} // verus!
