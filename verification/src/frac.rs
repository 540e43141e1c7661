use vstd::prelude::*;

verus! {

/// Mathematical model of an exact rational number: an integer numerator over
/// an integer denominator. Well-formed values keep the denominator positive;
/// two models denote the same rational exactly when they cross-multiply
/// equally.
pub struct Frac {
    pub n: int,
    pub d: int,
}

/// Value equality of two fractions, by cross-multiplication.
pub open spec fn frac_eq(a: Frac, b: Frac) -> bool {
    a.n * b.d == b.n * a.d
}

pub open spec fn frac_from_int(n: int) -> Frac {
    Frac { n: n, d: 1 }
}

/// The fraction is exactly zero (denominators are never zero).
pub open spec fn frac_is_zero(a: Frac) -> bool {
    a.n == 0
}

/// The fraction is exactly one.
pub open spec fn frac_is_one(a: Frac) -> bool {
    a.n == a.d
}

pub open spec fn frac_add(a: Frac, b: Frac) -> Frac {
    Frac { n: a.n * b.d + b.n * a.d, d: a.d * b.d }
}

pub open spec fn frac_mul(a: Frac, b: Frac) -> Frac {
    Frac { n: a.n * b.n, d: a.d * b.d }
}

pub open spec fn frac_neg(a: Frac) -> Frac {
    Frac { n: -a.n, d: a.d }
}

pub open spec fn frac_recip(a: Frac) -> Frac {
    Frac { n: a.d, d: a.n }
}

pub open spec fn frac_div(a: Frac, b: Frac) -> Frac {
    frac_mul(a, frac_recip(b))
}

/// Value equality is transitive as long as the middle denominator is nonzero.
pub proof fn lemma_frac_eq_trans(a: Frac, b: Frac, c: Frac) by (nonlinear_arith)
    requires
        b.d != 0,
        frac_eq(a, b),
        frac_eq(b, c),
    ensures
        frac_eq(a, c),
{
}

/// Replacing one addend by an equal-valued fraction keeps the sum's value.
pub proof fn lemma_frac_add_congr_left(a: Frac, a2: Frac, b: Frac)
    requires
        frac_eq(a, a2),
    ensures
        frac_eq(frac_add(a, b), frac_add(a2, b)),
{
    assert((a.n * b.d) * (a2.d * b.d) == (a2.n * b.d) * (a.d * b.d)) by (nonlinear_arith)
        requires
            a.n * a2.d == a2.n * a.d;
    assert((b.n * a.d) * (a2.d * b.d) == (b.n * a2.d) * (a.d * b.d)) by (nonlinear_arith);
    assert((a.n * b.d + b.n * a.d) * (a2.d * b.d) == (a.n * b.d) * (a2.d * b.d) + (b.n * a.d) * (
    a2.d * b.d)) by (nonlinear_arith);
    assert((a2.n * b.d + b.n * a2.d) * (a.d * b.d) == (a2.n * b.d) * (a.d * b.d) + (b.n * a2.d) * (
    a.d * b.d)) by (nonlinear_arith);
}

/// Replacing the second addend by an equal-valued fraction keeps the sum's value.
pub proof fn lemma_frac_add_congr_right(a: Frac, b: Frac, b2: Frac)
    requires
        frac_eq(b, b2),
    ensures
        frac_eq(frac_add(a, b), frac_add(a, b2)),
{
    assert((b.n * a.d) * (a.d * b2.d) == (b2.n * a.d) * (a.d * b.d)) by (nonlinear_arith)
        requires
            b.n * b2.d == b2.n * b.d;
    assert((a.n * b.d) * (a.d * b2.d) == (a.n * b2.d) * (a.d * b.d)) by (nonlinear_arith);
    assert((a.n * b.d + b.n * a.d) * (a.d * b2.d) == (a.n * b.d) * (a.d * b2.d) + (b.n * a.d) * (
    a.d * b2.d)) by (nonlinear_arith);
    assert((a.n * b2.d + b2.n * a.d) * (a.d * b.d) == (a.n * b2.d) * (a.d * b.d) + (b2.n * a.d) * (
    a.d * b.d)) by (nonlinear_arith);
}

/// Replacing one factor by an equal-valued fraction keeps the product's value.
pub proof fn lemma_frac_mul_congr_left(a: Frac, a2: Frac, b: Frac) by (nonlinear_arith)
    requires
        frac_eq(a, a2),
    ensures
        frac_eq(frac_mul(a, b), frac_mul(a2, b)),
{
}

pub proof fn lemma_frac_mul_congr_right(a: Frac, b: Frac, b2: Frac) by (nonlinear_arith)
    requires
        frac_eq(b, b2),
    ensures
        frac_eq(frac_mul(a, b), frac_mul(a, b2)),
{
}

/// A fraction equal in value to a zero fraction is itself zero.
pub proof fn lemma_frac_eq_zero(a: Frac, b: Frac) by (nonlinear_arith)
    requires
        b.d != 0,
        frac_eq(a, b),
        frac_is_zero(b),
    ensures
        frac_is_zero(a),
{
}

/// A fraction equal in value to a nonzero fraction is itself nonzero.
pub proof fn lemma_frac_eq_nonzero(a: Frac, b: Frac) by (nonlinear_arith)
    requires
        a.d != 0,
        frac_eq(a, b),
        !frac_is_zero(b),
    ensures
        !frac_is_zero(a),
{
}

/// A fraction equal in value to a fraction that is one is itself one.
pub proof fn lemma_frac_eq_one(a: Frac, b: Frac) by (nonlinear_arith)
    requires
        b.d != 0,
        frac_eq(a, b),
        frac_is_one(b),
    ensures
        frac_is_one(a),
{
}

/// Multiplying by the reciprocal of a fraction that is one keeps the value.
pub proof fn lemma_frac_mul_recip_one(x: Frac, l: Frac) by (nonlinear_arith)
    requires
        frac_is_one(l),
    ensures
        frac_eq(x, frac_mul(x, frac_recip(l))),
{
}

/// Eliminating against a pivot really cancels the entry:
/// a + p * (-a / p) has numerator exactly zero.
pub proof fn lemma_frac_cancel(a: Frac, p: Frac) by (nonlinear_arith)
    ensures
        frac_is_zero(frac_add(a, frac_mul(p, frac_div(frac_neg(a), p)))),
{
}

} // verus!
