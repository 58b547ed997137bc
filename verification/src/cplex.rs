//! Fixed-point complex arithmetic for the escape-time recurrence.
//!
//! A coordinate of the complex plane is stored as a signed 64-bit integer
//! counting `SCALE` steps per unit, so `Complex { re, im }` stands for the
//! point `(re / SCALE, im / SCALE)`. Products of two such coordinates carry
//! the scale twice; the recurrence step divides them back down with
//! truncating (round-toward-zero) division, which keeps every operation
//! exact and, in particular, odd-symmetric in its numerator.

use vstd::prelude::*;
use vstd::math::abs;
use vstd::arithmetic::div_mod::{
    lemma_div_pos_is_pos, lemma_div_nonincreasing, lemma_div_is_ordered, lemma_div_by_multiple,
};
use vstd::arithmetic::mul::{
    lemma_mul_unary_negation, lemma_mul_cancels_negatives, lemma_mul_strictly_positive,
    lemma_mul_by_zero_is_zero, lemma_mul_basics, lemma_mul_is_commutative,
};

verus! {

/// Fixed-point scale: one unit of the complex plane is `SCALE` steps (2^24).
pub const SCALE: i64 = 16777216;

/// Largest component magnitude the complex helpers accept (2^30); keeps all
/// intermediate products far inside `i64`/`i128` range.
pub const COMP_MAX: i64 = 1073741824;

/// Truncating (round-toward-zero) division: the quotient that Rust's `/`
/// and `checked_div` compute, written over Euclidean `/`.
pub open spec fn tdiv(a: int, b: int) -> int {
    if a == 0 {
        0
    } else if a > 0 && b > 0 {
        a / b
    } else if a < 0 && b < 0 {
        (a * -1) / (b * -1)
    } else if a < 0 {
        ((a * -1) / b) * -1
    } else {
        (a / (b * -1)) * -1
    }
}

/// `tdiv` is the sign-adjusted quotient of the magnitudes.
pub proof fn lemma_tdiv_magnitude(a: int, b: int)
    requires
        b != 0,
    ensures
        a == 0 ==> tdiv(a, b) == 0,
        a != 0 && ((a > 0) == (b > 0)) ==> tdiv(a, b) == abs(a) as int / abs(b) as int,
        a != 0 && ((a > 0) != (b > 0)) ==> tdiv(a, b) == -(abs(a) as int / abs(b) as int),
{
}

/// Truncating division never grows the magnitude of the dividend.
pub proof fn lemma_tdiv_abs_le(a: int, b: int)
    requires
        b != 0,
    ensures
        -abs(a) <= tdiv(a, b) <= abs(a),
{
    lemma_tdiv_magnitude(a, b);
    if a != 0 {
        lemma_div_pos_is_pos(abs(a) as int, abs(b) as int);
        lemma_div_nonincreasing(abs(a) as int, abs(b) as int);
    }
}

/// A magnitude bound through the divisor: `|a| <= m * |b|` bounds the
/// truncated quotient by `m`.
pub proof fn lemma_tdiv_quot_le(a: int, b: int, m: int)
    requires
        b != 0,
        0 <= m,
        abs(a) <= m * abs(b),
    ensures
        -m <= tdiv(a, b) <= m,
{
    lemma_tdiv_magnitude(a, b);
    if a != 0 {
        let x = abs(a) as int;
        let d = abs(b) as int;
        lemma_div_pos_is_pos(x, d);
        lemma_div_is_ordered(x, m * d, d);
        lemma_div_by_multiple(m, d);
    }
}

/// `tdiv` is odd in its numerator.
pub proof fn lemma_tdiv_neg_num(a: int, b: int)
    requires
        b != 0,
    ensures
        tdiv(-a, b) == -tdiv(a, b),
{
    lemma_tdiv_magnitude(a, b);
    lemma_tdiv_magnitude(-a, b);
}

/// Dividing an exact multiple of the divisor recovers the factor.
pub proof fn lemma_tdiv_exact(t: int, d: int)
    requires
        d != 0,
    ensures
        tdiv(t * d, d) == t,
{
    lemma_tdiv_magnitude(t * d, d);
    lemma_mul_unary_negation(t, d);
    lemma_mul_cancels_negatives(t, d);
    if t == 0 {
        lemma_mul_by_zero_is_zero(d);
    } else if t > 0 && d > 0 {
        lemma_mul_strictly_positive(t, d);
        lemma_div_by_multiple(t, d);
    } else if t < 0 && d > 0 {
        lemma_mul_strictly_positive(-t, d);
        lemma_div_by_multiple(-t, d);
    } else if t > 0 && d < 0 {
        lemma_mul_strictly_positive(t, -d);
        lemma_div_by_multiple(t, -d);
    } else {
        lemma_mul_strictly_positive(-t, -d);
        lemma_div_by_multiple(-t, -d);
    }
}

/// Negating numerator and divisor together leaves the quotient unchanged.
pub proof fn lemma_tdiv_neg_both(a: int, b: int)
    requires
        b != 0,
    ensures
        tdiv(-a, -b) == tdiv(a, b),
{
    lemma_tdiv_magnitude(a, b);
    lemma_tdiv_magnitude(-a, -b);
}

proof fn lemma_tdiv_interp_pos(a: int, d: int, t: int)
    requires
        0 < d,
        0 <= a <= d,
    ensures
        t >= 0 ==> 0 <= tdiv(a * t, d) <= t,
        t < 0 ==> t <= tdiv(a * t, d) <= 0,
        a == d ==> tdiv(a * t, d) == t,
        a == 0 ==> tdiv(a * t, d) == 0,
{
    lemma_mul_basics(t);
    lemma_tdiv_magnitude(a * t, d);
    if a == d {
        lemma_mul_is_commutative(a, t);
        lemma_tdiv_exact(t, d);
    }
    if t > 0 {
        assert(0 <= a * t && a * t <= d * t) by (nonlinear_arith)
            requires
                0 <= a <= d,
                t > 0,
        ;
        let x = a * t;
        if x != 0 {
            lemma_div_pos_is_pos(x, d);
            lemma_div_is_ordered(x, d * t, d);
            lemma_mul_is_commutative(d, t);
            lemma_div_by_multiple(t, d);
        }
    } else if t < 0 {
        assert(d * t <= a * t && a * t <= 0) by (nonlinear_arith)
            requires
                0 <= a <= d,
                t < 0,
        ;
        let x = a * t;
        if x != 0 {
            lemma_mul_unary_negation(d, t);
            lemma_div_pos_is_pos(-x, d);
            lemma_div_is_ordered(-x, d * (-t), d);
            lemma_mul_is_commutative(d, -t);
            lemma_div_by_multiple(-t, d);
        }
    }
}

/// Interpolation stays between the ends: for `a` between 0 and `d`, the
/// truncated quotient `a * t / d` lies between 0 and `t`, reaching them
/// exactly at `a == 0` and `a == d`.
pub proof fn lemma_tdiv_interp(a: int, d: int, t: int)
    requires
        d != 0,
        0 <= a <= d || d <= a <= 0,
    ensures
        t >= 0 ==> 0 <= tdiv(a * t, d) <= t,
        t < 0 ==> t <= tdiv(a * t, d) <= 0,
        a == d ==> tdiv(a * t, d) == t,
        a == 0 ==> tdiv(a * t, d) == 0,
{
    if d > 0 {
        lemma_tdiv_interp_pos(a, d, t);
    } else {
        lemma_tdiv_neg_both(a * t, d);
        lemma_mul_unary_negation(a, t);
        lemma_tdiv_interp_pos(-a, -d, t);
    }
}

/// Truncating division of `i128` values, proved against `tdiv` through
/// vstd's contract for `i128::checked_div`.
pub fn div_trunc(a: i128, b: i128) -> (q: i128)
    requires
        b != 0,
        a != i128::MIN,
    ensures
        q == tdiv(a as int, b as int),
{
    proof {
        lemma_tdiv_abs_le(a as int, b as int);
    }
    match a.checked_div(b) {
        Some(q) => q,
        None => {
            proof {
                assert(false);
            }
            0
        },
    }
}

/// A point of the complex plane in fixed-point coordinates: the value
/// `(re / SCALE, im / SCALE)`.
#[derive(Clone, Copy, PartialEq, Eq, Structural, Debug)]
pub struct Complex {
    pub re: i64,
    pub im: i64,
}

/// Squared magnitude of `(re, im)`, carried on the product scale
/// `SCALE * SCALE` (no rescaling division, so it is exact).
pub open spec fn sq_spec(re: int, im: int) -> int {
    re * re + im * im
}

/// Real part of one recurrence step `z := z * z + c`.
pub open spec fn step_re(zre: int, zim: int, cre: int) -> int {
    tdiv(zre * zre - zim * zim, SCALE as int) + cre
}

/// Imaginary part of one recurrence step `z := z * z + c`.
pub open spec fn step_im(zre: int, zim: int, cim: int) -> int {
    tdiv(zre * zim + zim * zre, SCALE as int) + cim
}

/// The orbit of the origin under `z := z * z + c`, after `t` steps.
pub open spec fn orbit(cre: int, cim: int, t: nat) -> (int, int)
    decreases t,
{
    if t == 0 {
        (0int, 0int)
    } else {
        let z = orbit(cre, cim, (t - 1) as nat);
        (step_re(z.0, z.1, cre), step_im(z.0, z.1, cim))
    }
}

/// Squared magnitude of a point, on the product scale `SCALE * SCALE`.
pub fn sq(a: &Complex) -> (r: i64)
    requires
        -COMP_MAX <= a.re <= COMP_MAX,
        -COMP_MAX <= a.im <= COMP_MAX,
    ensures
        r == sq_spec(a.re as int, a.im as int),
{
    proof {
        assert(0 <= (a.re as int) * (a.re as int) <= 0x1000000000000000
            && 0 <= (a.im as int) * (a.im as int) <= 0x1000000000000000) by (nonlinear_arith)
            requires
                -0x40000000 <= a.re <= 0x40000000,
                -0x40000000 <= a.im <= 0x40000000,
        ;
    }
    let re2: i128 = (a.re as i128) * (a.re as i128);
    let im2: i128 = (a.im as i128) * (a.im as i128);
    (re2 + im2) as i64
}

/// Componentwise translation `a := a + b`, the `+=` of the recurrence.
pub fn add_c(a: &mut Complex, b: &Complex)
    requires
        i64::MIN <= old(a).re + b.re <= i64::MAX,
        i64::MIN <= old(a).im + b.im <= i64::MAX,
    ensures
        final(a).re == old(a).re + b.re,
        final(a).im == old(a).im + b.im,
{
    a.re = a.re + b.re;
    a.im = a.im + b.im;
}

/// In-place complex square `a := a * a`, rescaling the products back to
/// coordinate scale with truncating division.
pub fn pow2(a: &mut Complex)
    requires
        -COMP_MAX <= old(a).re <= COMP_MAX,
        -COMP_MAX <= old(a).im <= COMP_MAX,
    ensures
        final(a).re == tdiv(old(a).re * old(a).re - old(a).im * old(a).im, SCALE as int),
        final(a).im == tdiv(old(a).re * old(a).im + old(a).im * old(a).re, SCALE as int),
{
    let zre: i128 = a.re as i128;
    let zim: i128 = a.im as i128;
    proof {
        lemma_step_products_bounded(zre as int, zim as int);
    }
    let num_re: i128 = zre * zre - zim * zim;
    let num_im: i128 = zre * zim + zim * zre;
    proof {
        lemma_tdiv_quot_le(num_re as int, SCALE as int, 0x2000000000);
        lemma_tdiv_quot_le(num_im as int, SCALE as int, 0x2000000000);
    }
    let re: i128 = div_trunc(num_re, SCALE as i128);
    let im: i128 = div_trunc(num_im, SCALE as i128);
    a.re = re as i64;
    a.im = im as i64;
}

/// One fused recurrence step `a := a * a + b`: the square of `pow2`
/// followed by the translation of `add_c`, in one mutation.
pub fn mandel(a: &mut Complex, b: &Complex)
    requires
        -COMP_MAX <= old(a).re <= COMP_MAX,
        -COMP_MAX <= old(a).im <= COMP_MAX,
        -COMP_MAX <= b.re <= COMP_MAX,
        -COMP_MAX <= b.im <= COMP_MAX,
    ensures
        final(a).re == step_re(old(a).re as int, old(a).im as int, b.re as int),
        final(a).im == step_im(old(a).re as int, old(a).im as int, b.im as int),
{
    let zre: i128 = a.re as i128;
    let zim: i128 = a.im as i128;
    proof {
        lemma_step_products_bounded(zre as int, zim as int);
    }
    let num_re: i128 = zre * zre - zim * zim;
    let num_im: i128 = zre * zim + zim * zre;
    proof {
        lemma_tdiv_quot_le(num_re as int, SCALE as int, 0x2000000000);
        lemma_tdiv_quot_le(num_im as int, SCALE as int, 0x2000000000);
    }
    let re: i128 = div_trunc(num_re, SCALE as i128);
    let im: i128 = div_trunc(num_im, SCALE as i128);
    a.re = (re as i64) + b.re;
    a.im = (im as i64) + b.im;
}

/// Bounds for the two step numerators: components up to `COMP_MAX` keep
/// both `zre*zre - zim*zim` and `zre*zim + zim*zre` within
/// `2^61 == 2^37 * SCALE`.
proof fn lemma_step_products_bounded(zre: int, zim: int)
    requires
        -0x40000000 <= zre <= 0x40000000,
        -0x40000000 <= zim <= 0x40000000,
    ensures
        -0x1000000000000000 <= zre * zre <= 0x1000000000000000,
        -0x1000000000000000 <= zim * zim <= 0x1000000000000000,
        -0x1000000000000000 <= zre * zim <= 0x1000000000000000,
        -0x1000000000000000 <= zim * zre <= 0x1000000000000000,
        abs(zre * zre - zim * zim) <= 0x2000000000 * (SCALE as int),
        abs(zre * zim + zim * zre) <= 0x2000000000 * (SCALE as int),
{
    assert(-0x1000000000000000 <= zre * zre <= 0x1000000000000000
        && -0x1000000000000000 <= zim * zim <= 0x1000000000000000
        && -0x1000000000000000 <= zre * zim <= 0x1000000000000000
        && -0x1000000000000000 <= zim * zre <= 0x1000000000000000) by (nonlinear_arith)
        requires
            -0x40000000 <= zre <= 0x40000000,
            -0x40000000 <= zim <= 0x40000000,
    ;
}

} // verus!
