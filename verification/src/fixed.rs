//! Fixed-point arithmetic with 32 fractional bits.
//!
//! A value `v` stands for the real number `v / 2^32`. Products are brought
//! back to that scale by a division that rounds toward zero, so negating one
//! factor negates the product exactly.

use vstd::prelude::*;

verus! {

/// The raw value of 1.0.
pub const ONE: i64 = 0x1_0000_0000;

/// The raw value of 0.5.
pub const HALF: i64 = 0x8000_0000;

/// Quotient of `a` by a non-zero `d`, rounded toward zero.
pub open spec fn quot(a: int, d: int) -> int
    recommends
        d != 0,
{
    if d > 0 {
        if a >= 0 {
            a / d
        } else {
            -((-a) / d)
        }
    } else {
        if a >= 0 {
            -(a / (-d))
        } else {
            (-a) / (-d)
        }
    }
}

/// Product of two fixed-point values, at the scale of its factors.
pub open spec fn scaled_product(a: int, b: int) -> int {
    quot(a * b, ONE as int)
}

/// Absolute value of an integer.
pub open spec fn magnitude(a: int) -> int {
    if a >= 0 {
        a
    } else {
        -a
    }
}

/// Negating both the dividend and the divisor leaves the quotient unchanged;
/// negating one of them negates it.
pub proof fn lemma_quot_signs(a: int, d: int)
    requires
        d != 0,
    ensures
        quot(-a, -d) == quot(a, d),
        quot(-a, d) == -quot(a, d),
        quot(a, -d) == -quot(a, d),
{
}

/// A quotient is no larger in magnitude than its dividend, and keeps its sign.
pub proof fn lemma_quot_bounds(a: int, d: int)
    requires
        d > 0,
    ensures
        magnitude(quot(a, d)) == magnitude(a) / d,
        magnitude(quot(a, d)) <= magnitude(a),
        a >= 0 ==> quot(a, d) >= 0,
        a <= 0 ==> quot(a, d) <= 0,
{
    let m = magnitude(a);
    assert(0 <= m / d <= m) by (nonlinear_arith)
        requires
            m >= 0,
            d > 0,
    ;
}

/// The magnitude of a product of bounded factors.
pub proof fn lemma_product_magnitude(a: int, b: int, bound_a: int, bound_b: int)
    requires
        magnitude(a) <= bound_a,
        magnitude(b) <= bound_b,
    ensures
        magnitude(a * b) == magnitude(a) * magnitude(b),
        magnitude(a * b) <= bound_a * bound_b,
{
    assert(magnitude(a * b) == magnitude(a) * magnitude(b)) by (nonlinear_arith);
    assert(magnitude(a) * magnitude(b) <= bound_a * bound_b) by (nonlinear_arith)
        requires
            0 <= magnitude(a) <= bound_a,
            0 <= magnitude(b) <= bound_b,
    ;
}

/// A scaled product of bounded factors is bounded by the scaled product of
/// the bounds.
pub proof fn lemma_scaled_product_bound(a: int, b: int, bound_a: int, bound_b: int)
    requires
        magnitude(a) <= bound_a,
        magnitude(b) <= bound_b,
    ensures
        magnitude(scaled_product(a, b)) <= (bound_a * bound_b) / (ONE as int),
{
    lemma_product_magnitude(a, b, bound_a, bound_b);
    lemma_quot_bounds(a * b, ONE as int);
    let m = magnitude(a * b);
    let t = bound_a * bound_b;
    assert(m / (ONE as int) <= t / (ONE as int)) by (nonlinear_arith)
        requires
            m <= t,
    ;
}

/// Multiplying by 1.0 changes nothing, and multiplying by zero gives zero.
pub proof fn lemma_scaled_product_unit(a: int)
    ensures
        scaled_product(ONE as int, a) == a,
        scaled_product(a, ONE as int) == a,
        scaled_product(0, a) == 0,
        scaled_product(a, 0) == 0,
{
    assert((ONE as int) * a == a * 0x1_0000_0000) by (nonlinear_arith);
    assert(a * (ONE as int) == a * 0x1_0000_0000) by (nonlinear_arith);
    assert(0 * a == 0) by (nonlinear_arith);
    assert(a * 0 == 0) by (nonlinear_arith);
}

/// Scaling a non-negative value by a fraction between 0 and 1 gives a value
/// between zero and the value itself.
pub proof fn lemma_scaled_product_fraction(a: int, b: int)
    requires
        0 <= a <= ONE,
        0 <= b,
    ensures
        0 <= scaled_product(a, b) <= b,
        0 <= scaled_product(b, a) <= b,
{
    assert(0 <= a * b <= b * 0x1_0000_0000) by (nonlinear_arith)
        requires
            0 <= a <= 0x1_0000_0000,
            0 <= b,
    ;
    assert(b * a == a * b) by (nonlinear_arith);
}

/// `acc + a * b`, the product scaled back and rounded toward zero.
pub fn fx_mul_add(acc: i64, a: i64, b: i64) -> (r: i64)
    requires
        i64::MIN <= acc + scaled_product(a as int, b as int) <= i64::MAX,
    ensures
        r == acc + scaled_product(a as int, b as int),
{
    proof {
        lemma_product_magnitude(
            a as int,
            b as int,
            0x8000_0000_0000_0000,
            0x8000_0000_0000_0000,
        );
        assert(0x8000_0000_0000_0000int * 0x8000_0000_0000_0000int
            == 0x4000_0000_0000_0000_0000_0000_0000_0000int) by (nonlinear_arith);
    }
    let wide: i128 = (a as i128) * (b as i128);
    let scaled: i128 = wide / 0x1_0000_0000i128;
    let sum: i128 = (acc as i128) + scaled;
    sum as i64
}

/// `a * b`, scaled back and rounded toward zero.
pub fn fx_mul(a: i64, b: i64) -> (r: i64)
    requires
        i64::MIN <= scaled_product(a as int, b as int) <= i64::MAX,
    ensures
        r == scaled_product(a as int, b as int),
{
    fx_mul_add(0, a, b)
}

} // verus!
