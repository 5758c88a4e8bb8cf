//! Sine and cosine of an angle measured in turns.
//!
//! An angle is a count of 2^-32 turns, so a full circle is exactly the range
//! of a `u32` and reducing an angle to one circle loses nothing. The first
//! quarter of the sine is an odd polynomial of degree eleven; the other three
//! quarters are its mirror images, which makes the symmetries of the sine hold
//! to the last bit.

use crate::fixed::fx_mul;
use crate::fixed::lemma_scaled_product_fraction;
use crate::fixed::scaled_product;
use crate::fixed::ONE;
use vstd::prelude::*;

verus! {

/// A full turn.
pub open spec fn turn() -> int {
    0x1_0000_0000
}

/// A quarter of a turn.
pub const QUARTER_TURN: u32 = 0x4000_0000;

/// Half a turn.
pub const HALF_TURN: u32 = 0x8000_0000;

/// Three quarters of a turn.
pub const THREE_QUARTER_TURN: u32 = 0xC000_0000;

/// First coefficient of the polynomial
/// `x * (C0 - x^2 * (C1 - x^2 * (C2 - x^2 * (C3 - x^2 * (C4 - x^2 * C5)))))`,
/// which follows `sin(pi / 2 * x)` for `x` between 0 and 1 to within a few
/// units of 2^-32. This one is the raw value of `pi / 2`.
pub const SINE_C0: i64 = 6746518852;

/// Second coefficient of the sine polynomial, about 0.64596.
pub const SINE_C1: i64 = 2774394665;

/// Third coefficient of the sine polynomial, about 0.079693.
pub const SINE_C2: i64 = 342277127;

/// Fourth coefficient of the sine polynomial, about 0.0046817.
pub const SINE_C3: i64 = 20107567;

/// Fifth coefficient of the sine polynomial, about 0.00016025.
pub const SINE_C4: i64 = 688288;

/// Sixth coefficient of the sine polynomial, about 0.0000034317.
pub const SINE_C5: i64 = 14739;

/// One step of Horner's rule for a polynomial whose signs alternate.
pub open spec fn horner(z: int, acc: int, coeff: int) -> int {
    coeff - scaled_product(z, acc)
}

/// The polynomial's inner factor at `z`, the square of the argument.
pub open spec fn sine_series(z: int) -> int {
    let a4 = horner(z, SINE_C5 as int, SINE_C4 as int);
    let a3 = horner(z, a4, SINE_C3 as int);
    let a2 = horner(z, a3, SINE_C2 as int);
    let a1 = horner(z, a2, SINE_C1 as int);
    horner(z, a1, SINE_C0 as int)
}

/// Sine over the first quarter turn: `x` is the angle as a fraction of a
/// quarter turn, between 0 and 1.0, and the result is limited to 1.0.
pub open spec fn quarter_sine(x: int) -> int {
    let s = scaled_product(x, sine_series(scaled_product(x, x)));
    if s > ONE {
        ONE as int
    } else {
        s
    }
}

/// Sine of an angle in units of 2^-32 turns.
pub open spec fn sine(phase: int) -> int {
    let r = phase % turn();
    if r <= QUARTER_TURN {
        quarter_sine(4 * r)
    } else if r <= HALF_TURN {
        quarter_sine(4 * (HALF_TURN - r))
    } else if r <= THREE_QUARTER_TURN {
        -quarter_sine(4 * (r - HALF_TURN))
    } else {
        -quarter_sine(4 * (turn() - r))
    }
}

/// Cosine of an angle in units of 2^-32 turns: the sine a quarter turn on.
pub open spec fn cosine(phase: int) -> int {
    sine(phase + QUARTER_TURN)
}

/// The inner factor stays between zero and its leading coefficient.
pub proof fn lemma_sine_series_range(z: int)
    requires
        0 <= z <= ONE,
    ensures
        0 <= sine_series(z) <= SINE_C0,
{
    let a4 = horner(z, SINE_C5 as int, SINE_C4 as int);
    lemma_scaled_product_fraction(z, SINE_C5 as int);
    let a3 = horner(z, a4, SINE_C3 as int);
    lemma_scaled_product_fraction(z, a4);
    let a2 = horner(z, a3, SINE_C2 as int);
    lemma_scaled_product_fraction(z, a3);
    let a1 = horner(z, a2, SINE_C1 as int);
    lemma_scaled_product_fraction(z, a2);
    lemma_scaled_product_fraction(z, a1);
}

/// The quarter sine starts at zero and stays between zero and 1.0.
pub proof fn lemma_quarter_sine_range(x: int)
    requires
        0 <= x <= ONE,
    ensures
        0 <= quarter_sine(x) <= ONE,
        quarter_sine(0) == 0,
{
    lemma_scaled_product_fraction(x, x);
    lemma_sine_series_range(scaled_product(x, x));
    lemma_scaled_product_fraction(x, sine_series(scaled_product(x, x)));
    lemma_scaled_product_fraction(0, 0);
    lemma_sine_series_range(0);
    lemma_scaled_product_fraction(0, sine_series(0));
}

/// The sine is never larger than 1.0 in magnitude.
pub proof fn lemma_sine_range(phase: int)
    ensures
        -ONE <= sine(phase) <= ONE,
{
    let r = phase % turn();
    if r <= QUARTER_TURN {
        lemma_quarter_sine_range(4 * r);
    } else if r <= HALF_TURN {
        lemma_quarter_sine_range(4 * (HALF_TURN - r));
    } else if r <= THREE_QUARTER_TURN {
        lemma_quarter_sine_range(4 * (r - HALF_TURN));
    } else {
        lemma_quarter_sine_range(4 * (turn() - r));
    }
}

/// The sine is odd: the opposite angle has the opposite sine.
pub proof fn lemma_sine_odd(phase: int)
    ensures
        sine(-phase) == -sine(phase),
{
    let r = phase % turn();
    let m = (-phase) % turn();
    assert(m == if r == 0 {
        0
    } else {
        turn() - r
    });
    lemma_quarter_sine_range(0);
}

/// Sine over the first quarter turn.
fn quarter_wave(x: i64) -> (r: i64)
    requires
        0 <= x <= ONE,
    ensures
        r == quarter_sine(x as int),
        0 <= r <= ONE,
{
    proof {
        lemma_scaled_product_fraction(x as int, x as int);
    }
    let z: i64 = fx_mul(x, x);
    proof {
        lemma_sine_series_range(z as int);
        lemma_scaled_product_fraction(z as int, SINE_C5 as int);
    }
    let a4: i64 = SINE_C4 - fx_mul(z, SINE_C5);
    proof {
        lemma_scaled_product_fraction(z as int, a4 as int);
    }
    let a3: i64 = SINE_C3 - fx_mul(z, a4);
    proof {
        lemma_scaled_product_fraction(z as int, a3 as int);
    }
    let a2: i64 = SINE_C2 - fx_mul(z, a3);
    proof {
        lemma_scaled_product_fraction(z as int, a2 as int);
    }
    let a1: i64 = SINE_C1 - fx_mul(z, a2);
    proof {
        lemma_scaled_product_fraction(z as int, a1 as int);
    }
    let a0: i64 = SINE_C0 - fx_mul(z, a1);
    proof {
        lemma_scaled_product_fraction(x as int, a0 as int);
    }
    let s: i64 = fx_mul(x, a0);
    if s > ONE {
        ONE
    } else {
        s
    }
}

/// Sine of `phase`, an angle in units of 2^-32 turns.
pub fn sin_turns(phase: u32) -> (r: i64)
    ensures
        r == sine(phase as int),
        -ONE <= r <= ONE,
{
    let p: i64 = phase as i64;
    if phase <= QUARTER_TURN {
        quarter_wave(4 * p)
    } else if phase <= HALF_TURN {
        quarter_wave(4 * (0x8000_0000 - p))
    } else if phase <= THREE_QUARTER_TURN {
        -quarter_wave(4 * (p - 0x8000_0000))
    } else {
        -quarter_wave(4 * (0x1_0000_0000 - p))
    }
}

/// Cosine of `phase`, an angle in units of 2^-32 turns.
pub fn cos_turns(phase: u32) -> (r: i64)
    ensures
        r == cosine(phase as int),
        -ONE <= r <= ONE,
{
    let shifted: u64 = (phase as u64 + 0x4000_0000) % 0x1_0000_0000;
    sin_turns(shifted as u32)
}

} // verus!
