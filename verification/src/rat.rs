use vstd::prelude::*;

use crate::frac::{frac_add, frac_div, frac_eq, frac_mul, frac_neg, Frac};

verus! {

#[verifier::external_type_specification]
#[verifier::external_body]
#[verifier::reject_recursive_types(T)]
pub struct ExRatio<T>(num_rational::Ratio<T>);

#[verifier::external_type_specification]
#[verifier::external_body]
pub struct ExBigInt(num_bigint::BigInt);

/// The integer value of a rational's numerator, as `num_rational::Ratio::numer`
/// would hand it out.
pub uninterp spec fn rat_num(r: num_rational::BigRational) -> int;

/// The integer value of a rational's denominator, as `num_rational::Ratio::denom`
/// would hand it out.
pub uninterp spec fn rat_den(r: num_rational::BigRational) -> int;

/// The fraction a rational value stands for.
pub open spec fn rat_model(r: num_rational::BigRational) -> Frac {
    Frac { n: rat_num(r), d: rat_den(r) }
}

/// Every rational built by this crate keeps its denominator positive, as the
/// reducing constructors of `num_rational` do.
pub open spec fn rat_wf(r: num_rational::BigRational) -> bool {
    rat_den(r) > 0
}

/// Relies on `Ratio::from_integer` (and `BigInt::from` for the argument):
/// the result is the fraction n/1, unreduced.
#[verifier::external_body]
pub(crate) fn rat_from_i64(n: i64) -> (r: num_rational::BigRational)
    ensures
        rat_num(r) == n as int,
        rat_den(r) == 1,
{
    num_rational::BigRational::from_integer(num_bigint::BigInt::from(n))
}

/// Relies on `Ratio`'s derived `Clone`, which clones the two `BigInt` fields.
#[verifier::external_body]
pub(crate) fn rat_clone(a: &num_rational::BigRational) -> (r: num_rational::BigRational)
    ensures
        rat_num(r) == rat_num(*a),
        rat_den(r) == rat_den(*a),
{
    a.clone()
}

/// Relies on `Zero::is_zero` for `Ratio`, which tests the numerator alone.
#[verifier::external_body]
pub(crate) fn rat_is_zero(a: &num_rational::BigRational) -> (r: bool)
    ensures
        r == (rat_num(*a) == 0),
{
    num_traits::Zero::is_zero(a)
}

/// Relies on `One::is_one` for `Ratio`, which compares numerator and denominator.
#[verifier::external_body]
pub(crate) fn rat_is_one(a: &num_rational::BigRational) -> (r: bool)
    ensures
        r == (rat_num(*a) == rat_den(*a)),
{
    num_traits::One::is_one(a)
}

/// Relies on `Add` for `Ratio`, which forms the sum over the lcm of the
/// denominators and reduces, keeping the denominator positive.
#[verifier::external_body]
pub(crate) fn rat_add(a: &num_rational::BigRational, b: &num_rational::BigRational) -> (r:
    num_rational::BigRational)
    requires
        rat_wf(*a),
        rat_wf(*b),
    ensures
        rat_wf(r),
        frac_eq(rat_model(r), frac_add(rat_model(*a), rat_model(*b))),
{
    a + b
}

/// Relies on `Mul` for `Ratio`, which cancels by gcds and reduces, keeping the
/// denominator positive.
#[verifier::external_body]
pub(crate) fn rat_mul(a: &num_rational::BigRational, b: &num_rational::BigRational) -> (r:
    num_rational::BigRational)
    requires
        rat_wf(*a),
        rat_wf(*b),
    ensures
        rat_wf(r),
        frac_eq(rat_model(r), frac_mul(rat_model(*a), rat_model(*b))),
{
    a * b
}

/// Relies on `Div` for `Ratio`, which multiplies by the inverted divisor and
/// reduces; a divisor with numerator zero would panic, so it is excluded.
#[verifier::external_body]
pub(crate) fn rat_div(a: &num_rational::BigRational, b: &num_rational::BigRational) -> (r:
    num_rational::BigRational)
    requires
        rat_wf(*a),
        rat_wf(*b),
        rat_num(*b) != 0,
    ensures
        rat_wf(r),
        frac_eq(rat_model(r), frac_div(rat_model(*a), rat_model(*b))),
{
    a / b
}

/// Relies on `Neg` for `Ratio`, which negates the numerator in place.
#[verifier::external_body]
pub(crate) fn rat_neg(a: &num_rational::BigRational) -> (r: num_rational::BigRational)
    ensures
        rat_num(r) == -rat_num(*a),
        rat_den(r) == rat_den(*a),
{
    -a
}

/// Relies on `Ratio::recip`, which swaps numerator and denominator, moving the
/// sign; a zero numerator would panic, so it is excluded.
#[verifier::external_body]
pub(crate) fn rat_recip(a: &num_rational::BigRational) -> (r: num_rational::BigRational)
    requires
        rat_wf(*a),
        rat_num(*a) != 0,
    ensures
        rat_wf(r),
        rat_num(r) != 0,
        frac_eq(rat_model(r), crate::frac::frac_recip(rat_model(*a))),
{
    a.recip()
}

} // verus!
