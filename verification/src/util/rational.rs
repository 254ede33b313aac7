//! Exact fractions for the field-of-view computation, by way of the
//! `num_rational` crate. A fraction is held as its numerator and (positive)
//! denominator; each item here is trusted: its contract is what the crate's
//! documentation and source promise, not something proved.

use num_rational::Ratio;
use vstd::prelude::*;

verus! {

/// The largest magnitude of a numerator or denominator handed to these
/// functions; it keeps every intermediate product within `isize`.
pub const FRACTION_BOUND: isize = 4096;

/// Whether a fraction's parts are small enough for these functions.
pub open spec fn small(f: (isize, isize)) -> bool {
    -FRACTION_BOUND <= f.0 <= FRACTION_BOUND && 1 <= f.1 <= FRACTION_BOUND
}

/// Whether `r` has the value of `n / d` (both with positive denominators).
pub open spec fn same_value(r: (isize, isize), n: int, d: int) -> bool {
    r.0 * d == n * r.1
}

/// `Ratio::new(n, d)`, as numerator and denominator: the fraction `n / d`
/// in lowest terms with a positive denominator, which is at most `|d|`.
/// It panics on a zero denominator, which `requires` leaves out.
#[verifier::external_body]
pub fn ratio_new(n: isize, d: isize) -> (r: (isize, isize))
    requires
        d != 0,
        -FRACTION_BOUND <= n <= FRACTION_BOUND,
        -FRACTION_BOUND <= d <= FRACTION_BOUND,
    ensures
        r.1 > 0,
        r.1 <= if d > 0 { d as int } else { -d },
        same_value(r, n as int, d as int),
{
    let q = Ratio::new(n, d);
    (*q.numer(), *q.denom())
}

/// `Ratio * Ratio`: the product, in lowest terms, with a positive
/// denominator of at most the product of the denominators.
#[verifier::external_body]
pub fn ratio_mul(a: (isize, isize), b: (isize, isize)) -> (r: (isize, isize))
    requires
        small(a),
        small(b),
    ensures
        r.1 > 0,
        r.1 <= a.1 * b.1,
        same_value(r, a.0 * b.0, a.1 * b.1),
{
    let q = Ratio::new_raw(a.0, a.1) * Ratio::new_raw(b.0, b.1);
    (*q.numer(), *q.denom())
}

/// `Ratio + Ratio`: the sum, in lowest terms, with a positive denominator
/// of at most the product of the denominators.
#[verifier::external_body]
pub fn ratio_add(a: (isize, isize), b: (isize, isize)) -> (r: (isize, isize))
    requires
        small(a),
        small(b),
    ensures
        r.1 > 0,
        r.1 <= a.1 * b.1,
        same_value(r, a.0 * b.1 + b.0 * a.1, a.1 * b.1),
{
    let q = Ratio::new_raw(a.0, a.1) + Ratio::new_raw(b.0, b.1);
    (*q.numer(), *q.denom())
}

/// `Ratio - Ratio`: the difference, in lowest terms, with a positive
/// denominator of at most the product of the denominators.
#[verifier::external_body]
pub fn ratio_sub(a: (isize, isize), b: (isize, isize)) -> (r: (isize, isize))
    requires
        small(a),
        small(b),
    ensures
        r.1 > 0,
        r.1 <= a.1 * b.1,
        same_value(r, a.0 * b.1 - b.0 * a.1, a.1 * b.1),
{
    let q = Ratio::new_raw(a.0, a.1) - Ratio::new_raw(b.0, b.1);
    (*q.numer(), *q.denom())
}

/// `Ratio::floor` then `Ratio::to_integer`: the fraction rounded towards
/// minus infinity.
#[verifier::external_body]
pub fn ratio_floor(a: (isize, isize)) -> (r: isize)
    requires
        small(a),
    ensures
        r == a.0 as int / a.1 as int,
{
    Ratio::new_raw(a.0, a.1).floor().to_integer()
}

/// `Ratio::ceil` then `Ratio::to_integer`: the fraction rounded towards
/// plus infinity.
#[verifier::external_body]
pub fn ratio_ceil(a: (isize, isize)) -> (r: isize)
    requires
        small(a),
    ensures
        r == -((-a.0) as int / a.1 as int),
{
    Ratio::new_raw(a.0, a.1).ceil().to_integer()
}

/// `Ratio >= Ratio`: whether `a` is at least `b`.
#[verifier::external_body]
pub fn ratio_ge(a: (isize, isize), b: (isize, isize)) -> (r: bool)
    requires
        small(a),
        small(b),
    ensures
        r == (a.0 * b.1 >= b.0 * a.1),
{
    Ratio::new_raw(a.0, a.1) >= Ratio::new_raw(b.0, b.1)
}

/// `Ratio <= Ratio`: whether `a` is at most `b`.
#[verifier::external_body]
pub fn ratio_le(a: (isize, isize), b: (isize, isize)) -> (r: bool)
    requires
        small(a),
        small(b),
    ensures
        r == (a.0 * b.1 <= b.0 * a.1),
{
    Ratio::new_raw(a.0, a.1) <= Ratio::new_raw(b.0, b.1)
}

} // verus!
