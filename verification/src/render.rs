//! Coordinate normalisation, the escape-time evaluator and the raster
//! builder.
//!
//! A render job maps each pixel column and row through an affine remap
//! onto a rectangle of the complex plane (precomputed once per axis),
//! iterates `z := z * z + c` per pixel until the squared magnitude
//! exceeds the escape threshold, and colours the pixel with the palette
//! entry of its escape step — or black if the orbit stays bounded for
//! the whole budget. Rows are independent, so they are evaluated in
//! parallel and assembled in row-major order.

use vstd::prelude::*;
use vstd::arithmetic::power2::{pow2, lemma_pow2_pos};
use vstd::arithmetic::div_mod::{
    lemma_div_is_ordered_by_denominator, lemma_div_basics, lemma_fundamental_div_mod_converse,
    lemma_div_pos_is_pos,
};
use vstd::arithmetic::mul::{
    lemma_mul_basics, lemma_mul_inequality, lemma_mul_is_distributive_add_other_way,
    lemma_mul_nonnegative, lemma_mul_cancels_negatives, lemma_mul_unary_negation,
    lemma_mul_is_commutative, lemma_mul_upper_bound,
};
use vstd::bits::{lemma_u64_shl_is_mul, lemma_u64_pow2_no_overflow};
use crate::cplex::{
    Complex, SCALE, tdiv, sq_spec, step_re, step_im, orbit, sq, mandel, div_trunc,
    lemma_tdiv_quot_le, lemma_tdiv_interp, lemma_tdiv_neg_num, lemma_tdiv_exact,
};
use crate::colors::{Rgb, black, palette_seq, gen_palette};
use rayon::iter::IntoParallelRefIterator;
use rayon::iter::ParallelIterator;

verus! {

/// Squared escape threshold on the product scale: `4 * SCALE * SCALE`,
/// the standard radius-2 circle. The comparison is strict (`>`), so a
/// point exactly on the circle has not yet escaped.
pub const ESCAPE_SQ: i64 = 1125899906842624;

/// Largest coordinate magnitude the evaluator accepts: 8 units from the
/// origin, comfortably past every escape radius of interest.
pub const COORD_MAX: i64 = 8 * SCALE;

/// Largest magnitude `normalize` accepts for its five arguments (2^52);
/// keeps differences in `i64` and their product in `i128`.
pub const NORM_MAX: i64 = 4503599627370496;

/// Why a render is refused.
#[derive(Clone, Copy, PartialEq, Eq, Structural, Debug)]
pub enum RenderError {
    /// Zero width or height, a rectangle with no extent on an axis, or a
    /// zero iteration budget.
    Parameter,
    /// An affine remap from an empty source range (division by zero).
    Domain,
}

/// One render job: the output grid, the visible rectangle of the plane in
/// fixed-point corners (pixel 0 of an axis maps towards `x1`/`y1`), the
/// iteration budget and the palette's angular speed in degrees per step.
#[derive(Clone, Copy, PartialEq, Eq, Structural, Debug)]
pub struct MandelBrotSettings {
    pub width: u32,
    pub height: u32,
    pub x1: i64,
    pub x2: i64,
    pub y1: i64,
    pub y2: i64,
    pub budget: usize,
    pub speed: usize,
}

/// The RenderParameters invariant: a grid with pixels on both axes, a
/// rectangle with extent on both axes, and a positive budget.
pub open spec fn valid_settings(s: MandelBrotSettings) -> bool {
    s.width > 0 && s.height > 0 && s.x1 != s.x2 && s.y1 != s.y2 && s.budget > 0
}

/// The affine remap of `v` from `[from_min, from_max]` to
/// `[to_min, to_max]`, with truncating division.
pub open spec fn affine(v: int, from_min: int, from_max: int, to_min: int, to_max: int) -> int {
    to_min + tdiv((v - from_min) * (to_max - to_min), from_max - from_min)
}

/// The plane coordinate of pixel `p` on an axis of `n` pixels mapped to
/// `[lo, hi]`: the remap of `p` from `[0, n]`, all on the fixed-point
/// scale.
pub open spec fn coord_at(p: int, n: int, lo: int, hi: int) -> int {
    affine(p * (SCALE as int), 0, n * (SCALE as int), lo, hi)
}

/// Remaps `value` from the range `[from_min, from_max]` to the range
/// `[to_min, to_max]`; the target range may be given in either order
/// (a descending axis is supported). Fails with `Domain` if and only
/// if the source range is empty.
pub fn normalize(value: i64, from_min: i64, from_max: i64, to_min: i64, to_max: i64) -> (r: Result<
    i64,
    RenderError,
>)
    requires
        -NORM_MAX <= value <= NORM_MAX,
        -NORM_MAX <= from_min <= NORM_MAX,
        -NORM_MAX <= from_max <= NORM_MAX,
        -NORM_MAX <= to_min <= NORM_MAX,
        -NORM_MAX <= to_max <= NORM_MAX,
        from_min <= value <= from_max || from_max <= value <= from_min,
    ensures
        from_min == from_max ==> r == Err::<i64, RenderError>(RenderError::Domain),
        from_min != from_max ==> (r matches Ok(c) && c == affine(
            value as int,
            from_min as int,
            from_max as int,
            to_min as int,
            to_max as int,
        )),
        from_min != from_max && to_min <= to_max ==> (r matches Ok(c) && to_min <= c <= to_max),
        from_min != from_max && to_max <= to_min ==> (r matches Ok(c) && to_max <= c <= to_min),
        from_min != from_max && value == from_min ==> (r matches Ok(c) && c == to_min),
        from_min != from_max && value == from_max ==> (r matches Ok(c) && c == to_max),
{
    if from_min == from_max {
        return Err(RenderError::Domain);
    }
    let vd: i64 = value - from_min;
    let td: i64 = to_max - to_min;
    let fd: i64 = from_max - from_min;
    proof {
        lemma_mul_magnitude_bound(vd as int, td as int, 9007199254740992);
        lemma_tdiv_interp(vd as int, fd as int, td as int);
    }
    let num: i128 = (vd as i128) * (td as i128);
    let q: i128 = div_trunc(num, fd as i128);
    Ok(to_min + (q as i64))
}

/// Factors bounded by `m` in magnitude keep their product within
/// `m * m`.
proof fn lemma_mul_magnitude_bound(a: int, b: int, m: int)
    requires
        0 <= m,
        -m <= a <= m,
        -m <= b <= m,
    ensures
        -(m * m) <= a * b <= m * m,
{
    if a >= 0 && b >= 0 {
        lemma_mul_upper_bound(a, m, b, m);
        lemma_mul_nonnegative(a, b);
    } else if a >= 0 {
        lemma_mul_unary_negation(a, b);
        lemma_mul_upper_bound(a, m, -b, m);
        lemma_mul_nonnegative(a, -b);
    } else if b >= 0 {
        lemma_mul_unary_negation(a, b);
        lemma_mul_upper_bound(-a, m, b, m);
        lemma_mul_nonnegative(-a, b);
    } else {
        lemma_mul_cancels_negatives(a, b);
        lemma_mul_upper_bound(-a, m, -b, m);
        lemma_mul_nonnegative(-a, -b);
    }
}

/// 2 to the power `x`.
pub fn power_of_two(x: u64) -> (r: u64)
    requires
        x < 64,
    ensures
        r == pow2(x as nat),
{
    proof {
        lemma_u64_pow2_no_overflow(x as nat);
        lemma_u64_shl_is_mul(1, x);
    }
    1u64 << x
}

/// Half the visible extent of an axis at a zoom level: `1 / 2^zoom`
/// units, on the fixed-point scale (zero once the zoom exhausts the
/// fractional resolution, which a later render refuses as degenerate).
pub open spec fn half_extent(zoom: nat) -> int {
    (SCALE as int) / (pow2(zoom) as int)
}

impl MandelBrotSettings {
    /// Derives the visible rectangle from a centre point and a zoom
    /// level: each axis spans `centre ± 1 / 2^zoom` units.
    pub fn from_center_zoom(
        width: u32,
        height: u32,
        x: i64,
        y: i64,
        zoom: u64,
        budget: usize,
        speed: usize,
    ) -> (s: MandelBrotSettings)
        requires
            zoom < 64,
            -7 * SCALE <= x <= 7 * SCALE,
            -7 * SCALE <= y <= 7 * SCALE,
        ensures
            s.width == width,
            s.height == height,
            s.budget == budget,
            s.speed == speed,
            s.x1 == x - half_extent(zoom as nat),
            s.x2 == x + half_extent(zoom as nat),
            s.y1 == y - half_extent(zoom as nat),
            s.y2 == y + half_extent(zoom as nat),
            0 <= half_extent(zoom as nat) <= SCALE,
    {
        let p: u64 = power_of_two(zoom);
        proof {
            lemma_pow2_pos(zoom as nat);
            lemma_div_is_ordered_by_denominator(SCALE as int, 1, p as int);
            lemma_div_basics(SCALE as int);
            lemma_div_pos_is_pos(SCALE as int, p as int);
        }
        let half: i64 = ((SCALE as u64) / p) as i64;
        MandelBrotSettings {
            width,
            height,
            x1: x - half,
            x2: x + half,
            y1: y - half,
            y2: y + half,
            budget,
            speed,
        }
    }
}

/// Builds the two coordinate lookup tables: entry `p` of the first is
/// the plane coordinate of pixel column `p`, entry `p` of the second of
/// pixel row `p`. Each table is built once and shared read-only by
/// every pixel evaluation on its axis.
pub fn normal_gen(settings: &MandelBrotSettings) -> (r: (Vec<i64>, Vec<i64>))
    requires
        settings.width <= 65536,
        settings.height <= 65536,
        -COORD_MAX <= settings.x1 <= COORD_MAX,
        -COORD_MAX <= settings.x2 <= COORD_MAX,
        -COORD_MAX <= settings.y1 <= COORD_MAX,
        -COORD_MAX <= settings.y2 <= COORD_MAX,
    ensures
        r.0@.len() == settings.width,
        r.1@.len() == settings.height,
        forall|p: int| 0 <= p < settings.width ==> #[trigger] r.0@[p] == coord_at(
            p,
            settings.width as int,
            settings.x1 as int,
            settings.x2 as int,
        ),
        forall|p: int| 0 <= p < settings.height ==> #[trigger] r.1@[p] == coord_at(
            p,
            settings.height as int,
            settings.y1 as int,
            settings.y2 as int,
        ),
        forall|p: int| 0 <= p < settings.width ==> -COORD_MAX <= #[trigger] r.0@[p] <= COORD_MAX,
        forall|p: int| 0 <= p < settings.height ==> -COORD_MAX <= #[trigger] r.1@[p] <= COORD_MAX,
{
    let mut arrx: Vec<i64> = Vec::new();
    let ws: i64 = (settings.width as i64) * SCALE;
    let mut p: u32 = 0;
    while p < settings.width
        invariant
            p <= settings.width,
            settings.width <= 65536,
            ws == (settings.width as int) * (SCALE as int),
            -COORD_MAX <= settings.x1 <= COORD_MAX,
            -COORD_MAX <= settings.x2 <= COORD_MAX,
            arrx@.len() == p,
            forall|k: int| 0 <= k < p ==> #[trigger] arrx@[k] == coord_at(
                k,
                settings.width as int,
                settings.x1 as int,
                settings.x2 as int,
            ),
            forall|k: int| 0 <= k < p ==> -COORD_MAX <= #[trigger] arrx@[k] <= COORD_MAX,
        decreases settings.width - p,
    {
        let v: i64 = (p as i64) * SCALE;
        let c: i64 = match normalize(v, 0, ws, settings.x1, settings.x2) {
            Ok(c) => c,
            Err(_) => {
                proof {
                    assert(false);
                }
                0
            },
        };
        arrx.push(c);
        p = p + 1;
    }
    let mut arry: Vec<i64> = Vec::new();
    let hs: i64 = (settings.height as i64) * SCALE;
    let mut p: u32 = 0;
    while p < settings.height
        invariant
            p <= settings.height,
            settings.height <= 65536,
            hs == (settings.height as int) * (SCALE as int),
            -COORD_MAX <= settings.y1 <= COORD_MAX,
            -COORD_MAX <= settings.y2 <= COORD_MAX,
            arry@.len() == p,
            forall|k: int| 0 <= k < p ==> #[trigger] arry@[k] == coord_at(
                k,
                settings.height as int,
                settings.y1 as int,
                settings.y2 as int,
            ),
            forall|k: int| 0 <= k < p ==> -COORD_MAX <= #[trigger] arry@[k] <= COORD_MAX,
        decreases settings.height - p,
    {
        let v: i64 = (p as i64) * SCALE;
        let c: i64 = match normalize(v, 0, hs, settings.y1, settings.y2) {
            Ok(c) => c,
            Err(_) => {
                proof {
                    assert(false);
                }
                0
            },
        };
        arry.push(c);
        p = p + 1;
    }
    (arrx, arry)
}

/// Has the orbit of `c` left the escape circle at step `t`?
pub open spec fn escapes_at(cre: int, cim: int, t: nat) -> bool {
    let z = orbit(cre, cim, t);
    sq_spec(z.0, z.1) > ESCAPE_SQ
}

/// The first step in `[t, budget)` at which the orbit of `c` escapes.
pub open spec fn escape_from(cre: int, cim: int, t: nat, budget: nat) -> Option<nat>
    decreases budget - t,
{
    if t >= budget {
        None
    } else if escapes_at(cre, cim, t) {
        Some(t)
    } else {
        escape_from(cre, cim, (t + 1) as nat, budget)
    }
}

/// The escape step of `c` within `budget`, if any.
pub open spec fn escape_time(cre: int, cim: int, budget: nat) -> Option<nat> {
    escape_from(cre, cim, 0, budget)
}

/// The colour the evaluator owes `c`: the palette entry of its escape
/// step, or the bounded sentinel, black.
pub open spec fn eval_color(cre: int, cim: int, budget: nat, palette: Seq<Rgb>) -> Rgb {
    match escape_time(cre, cim, budget) {
        Some(t) => palette[t as int],
        None => black(),
    }
}

/// If no step before `t` escapes, the search from 0 agrees with the
/// search from `t`.
proof fn lemma_escape_skip(cre: int, cim: int, t: nat, budget: nat)
    requires
        t <= budget,
        forall|s: nat| s < t ==> !escapes_at(cre, cim, s),
    ensures
        escape_from(cre, cim, 0, budget) == escape_from(cre, cim, t, budget),
    decreases t,
{
    if t > 0 {
        lemma_escape_skip(cre, cim, (t - 1) as nat, budget);
    }
}

/// If no step in `[t, budget)` escapes, the search from `t` is empty.
proof fn lemma_escape_from_none(cre: int, cim: int, t: nat, budget: nat)
    requires
        t <= budget,
        forall|s: nat| t <= s < budget ==> !escapes_at(cre, cim, s),
    ensures
        escape_from(cre, cim, t, budget) is None,
    decreases budget - t,
{
    if t < budget {
        lemma_escape_from_none(cre, cim, (t + 1) as nat, budget);
    }
}

/// Escape-time evaluator: iterates `z := z * z + c` from the origin and
/// returns the palette entry of the first step whose squared magnitude
/// exceeds the threshold (checked before each step, so step 0 sees
/// `z = 0`), or black if no step within the budget escapes.
pub fn evaluate(c: Complex, budget: usize, palette: &Vec<Rgb>) -> (color: Rgb)
    requires
        palette@.len() >= budget,
        -COORD_MAX <= c.re <= COORD_MAX,
        -COORD_MAX <= c.im <= COORD_MAX,
    ensures
        color == eval_color(c.re as int, c.im as int, budget as nat, palette@),
{
    let mut z = Complex { re: 0, im: 0 };
    let mut t: usize = 0;
    while t < budget
        invariant
            t <= budget,
            palette@.len() >= budget,
            -COORD_MAX <= c.re <= COORD_MAX,
            -COORD_MAX <= c.im <= COORD_MAX,
            (z.re as int, z.im as int) == orbit(c.re as int, c.im as int, t as nat),
            -16 * (SCALE as int) <= z.re <= 16 * (SCALE as int),
            -16 * (SCALE as int) <= z.im <= 16 * (SCALE as int),
            forall|s: nat| s < t ==> !escapes_at(c.re as int, c.im as int, s),
        decreases budget - t,
    {
        let m: i64 = sq(&z);
        if m > ESCAPE_SQ {
            proof {
                assert(escapes_at(c.re as int, c.im as int, t as nat));
                lemma_escape_skip(c.re as int, c.im as int, t as nat, budget as nat);
            }
            return palette[t];
        }
        let ghost zr0 = z.re as int;
        let ghost zi0 = z.im as int;
        proof {
            assert(-33554432 <= z.re <= 33554432 && -33554432 <= z.im <= 33554432)
                by (nonlinear_arith)
                requires
                    z.re * z.re + z.im * z.im <= 1125899906842624,
            ;
        }
        mandel(&mut z, &c);
        proof {
            assert(-1125899906842624 <= zr0 * zr0 - zi0 * zi0 <= 1125899906842624
                && -2251799813685248 <= zr0 * zi0 + zi0 * zr0 <= 2251799813685248)
                by (nonlinear_arith)
                requires
                    -33554432 <= zr0 <= 33554432,
                    -33554432 <= zi0 <= 33554432,
            ;
            lemma_tdiv_quot_le(zr0 * zr0 - zi0 * zi0, SCALE as int, 67108864);
            lemma_tdiv_quot_le(zr0 * zi0 + zi0 * zr0, SCALE as int, 134217728);
        }
        t = t + 1;
    }
    proof {
        lemma_escape_skip(c.re as int, c.im as int, budget as nat, budget as nat);
    }
    Rgb { r: 0, g: 0, b: 0 }
}

/// The evaluator is pure: its colour is a function of the coordinate,
/// the budget and the palette alone, so two evaluations of the same
/// inputs agree.
pub proof fn lemma_evaluate_deterministic(
    a: Rgb,
    b: Rgb,
    cre: int,
    cim: int,
    budget: nat,
    palette: Seq<Rgb>,
)
    requires
        a == eval_color(cre, cim, budget, palette),
        b == eval_color(cre, cim, budget, palette),
    ensures
        a == b,
{
}

/// The orbit of the origin never moves: `0 * 0 + 0 == 0`.
proof fn lemma_orbit_origin(t: nat)
    ensures
        orbit(0, 0, t) == (0int, 0int),
    decreases t,
{
    if t > 0 {
        lemma_orbit_origin((t - 1) as nat);
    }
}

/// `c = (0, 0)` is a fixed point of the recurrence, so it never escapes:
/// within any budget the evaluator returns the bounded sentinel, black.
pub proof fn lemma_origin_never_escapes(budget: nat, palette: Seq<Rgb>)
    ensures
        escape_time(0, 0, budget) is None,
        eval_color(0, 0, budget, palette) == black(),
{
    assert forall|s: nat| s < budget implies !escapes_at(0, 0, s) by {
        lemma_orbit_origin(s);
    }
    lemma_escape_from_none(0, 0, 0, budget);
}

/// `c = (2, 0)` escapes at step 2 under the strict threshold: step 0
/// sees `z = 0` and step 1 sees `z = c`, whose squared magnitude is
/// exactly 4; step 2 sees `z = (6, 0)`.
pub proof fn lemma_two_escapes_at_two(budget: nat, palette: Seq<Rgb>)
    requires
        budget >= 3,
    ensures
        escape_time(2 * (SCALE as int), 0, budget) == Some(2nat),
        eval_color(2 * (SCALE as int), 0, budget, palette) == palette[2],
{
    let cre = 2 * (SCALE as int);
    let s = SCALE as int;
    lemma_mul_basics(cre);
    lemma_mul_basics(0);
    assert(cre * cre == 67108864 * s) by (nonlinear_arith)
        requires
            cre == 33554432,
            s == 16777216,
    ;
    lemma_tdiv_exact(67108864, s);
    assert(step_re(0, 0, cre) == cre);
    assert(step_im(0, 0, 0) == 0);
    assert(orbit(cre, 0, 1) == (cre, 0int));
    assert(step_re(cre, 0, cre) == 6 * s);
    assert(step_im(cre, 0, 0) == 0);
    assert(orbit(cre, 0, 2) == (6 * s, 0int));
    assert(sq_spec(0, 0) == 0);
    assert(sq_spec(cre, 0) == 1125899906842624);
    assert((6 * s) * (6 * s) == 10133099161583616) by (nonlinear_arith)
        requires
            s == 16777216,
    ;
    assert(!escapes_at(cre, 0, 0));
    assert(!escapes_at(cre, 0, 1));
    assert(escapes_at(cre, 0, 2));
    assert(escape_from(cre, 0, 2, budget) == Some(2nat));
    assert(escape_from(cre, 0, 1, budget) == Some(2nat));
    assert(escape_from(cre, 0, 0, budget) == Some(2nat));
}

/// Mirroring `c` across the real axis mirrors the whole orbit.
proof fn lemma_orbit_conj(cre: int, cim: int, t: nat)
    ensures
        orbit(cre, -cim, t).0 == orbit(cre, cim, t).0,
        orbit(cre, -cim, t).1 == -orbit(cre, cim, t).1,
    decreases t,
{
    if t > 0 {
        lemma_orbit_conj(cre, cim, (t - 1) as nat);
        let z = orbit(cre, cim, (t - 1) as nat);
        let a = z.0;
        let b = z.1;
        lemma_mul_cancels_negatives(b, b);
        lemma_mul_unary_negation(a, b);
        lemma_mul_unary_negation(b, a);
        lemma_tdiv_neg_num(a * b + b * a, SCALE as int);
    }
}

/// If no step in `[t, budget)` distinguishes the two conjugate points,
/// their searches agree.
proof fn lemma_escape_from_conj(cre: int, cim: int, t: nat, budget: nat)
    requires
        t <= budget,
        forall|s: nat| s < budget ==> escapes_at(cre, -cim, s) == escapes_at(cre, cim, s),
    ensures
        escape_from(cre, -cim, t, budget) == escape_from(cre, cim, t, budget),
    decreases budget - t,
{
    if t < budget {
        lemma_escape_from_conj(cre, cim, (t + 1) as nat, budget);
    }
}

/// Conjugation symmetry: the recurrence commutes with complex
/// conjugation, so a point and its mirror image across the real axis
/// escape at the same step and receive the same colour.
pub proof fn lemma_conjugate_symmetry(cre: int, cim: int, budget: nat, palette: Seq<Rgb>)
    ensures
        escape_time(cre, -cim, budget) == escape_time(cre, cim, budget),
        eval_color(cre, -cim, budget, palette) == eval_color(cre, cim, budget, palette),
{
    assert forall|s: nat| s < budget implies escapes_at(cre, -cim, s) == escapes_at(
        cre,
        cim,
        s,
    ) by {
        lemma_orbit_conj(cre, cim, s);
        lemma_mul_cancels_negatives(orbit(cre, cim, s).1, orbit(cre, cim, s).1);
    }
    lemma_escape_from_conj(cre, cim, 0, budget);
}

/// Mirror rows of a raster: wherever two pixel rows of a grid land on
/// exactly opposite height-coordinates, every pixel of the one row gets
/// the colour of its partner in the other. (The tables map an axis of
/// `n` pixels over `[0, n)` of `[lo, hi]`, so a row and its reflection
/// `height - 1 - y` land on exact negatives only where the truncation
/// works out, e.g. on the centre row of an odd grid over a symmetric
/// rectangle.)
pub proof fn lemma_mirror_rows_same_colour(
    s: MandelBrotSettings,
    y: int,
    ym: int,
    palette: Seq<Rgb>,
)
    requires
        coord_at(ym, s.height as int, s.y1 as int, s.y2 as int) == -coord_at(
            y,
            s.height as int,
            s.y1 as int,
            s.y2 as int,
        ),
    ensures
        forall|x: int|
            #![trigger coord_at(x, s.width as int, s.x1 as int, s.x2 as int)]
            eval_color(
                coord_at(x, s.width as int, s.x1 as int, s.x2 as int),
                coord_at(ym, s.height as int, s.y1 as int, s.y2 as int),
                s.budget as nat,
                palette,
            ) == eval_color(
                coord_at(x, s.width as int, s.x1 as int, s.x2 as int),
                coord_at(y, s.height as int, s.y1 as int, s.y2 as int),
                s.budget as nat,
                palette,
            ),
{
    assert forall|x: int|
        #![trigger coord_at(x, s.width as int, s.x1 as int, s.x2 as int)]
        eval_color(
            coord_at(x, s.width as int, s.x1 as int, s.x2 as int),
            coord_at(ym, s.height as int, s.y1 as int, s.y2 as int),
            s.budget as nat,
            palette,
        ) == eval_color(
            coord_at(x, s.width as int, s.x1 as int, s.x2 as int),
            coord_at(y, s.height as int, s.y1 as int, s.y2 as int),
            s.budget as nat,
            palette,
        ) by {
        lemma_conjugate_symmetry(
            coord_at(x, s.width as int, s.x1 as int, s.x2 as int),
            coord_at(y, s.height as int, s.y1 as int, s.y2 as int),
            s.budget as nat,
            palette,
        );
    }
}

/// The colours of one raster row at height-coordinate `j`.
pub open spec fn row_seq(j: int, xs: Seq<i64>, budget: nat, palette: Seq<Rgb>) -> Seq<Rgb> {
    Seq::new(xs.len(), |x: int| eval_color(xs[x] as int, j, budget, palette))
}

/// Sequential evaluation of one raster row: the unit of parallel work.
pub fn render_row(j: i64, xs: &Vec<i64>, budget: usize, palette: &Vec<Rgb>) -> (row: Vec<Rgb>)
    requires
        palette@.len() >= budget,
        -COORD_MAX <= j <= COORD_MAX,
        forall|k: int| 0 <= k < xs@.len() ==> -COORD_MAX <= #[trigger] xs@[k] <= COORD_MAX,
    ensures
        row@ == row_seq(j as int, xs@, budget as nat, palette@),
{
    let mut row: Vec<Rgb> = Vec::new();
    let mut x: usize = 0;
    while x < xs.len()
        invariant
            x <= xs@.len(),
            palette@.len() >= budget,
            -COORD_MAX <= j <= COORD_MAX,
            forall|k: int| 0 <= k < xs@.len() ==> -COORD_MAX <= #[trigger] xs@[k] <= COORD_MAX,
            row@.len() == x,
            forall|k: int| 0 <= k < x ==> #[trigger] row@[k] == eval_color(
                xs@[k] as int,
                j as int,
                budget as nat,
                palette@,
            ),
        decreases xs@.len() - x,
    {
        let color = evaluate(Complex { re: xs[x], im: j }, budget, palette);
        row.push(color);
        x = x + 1;
    }
    proof {
        assert(row@ =~= row_seq(j as int, xs@, budget as nat, palette@));
    }
    row
}

/// Row-major parallel raster: each row is one task, and the rows come
/// back in source order.
///
/// Relies on rayon's `par_iter().map(..).collect()` over a vector: the
/// indexed parallel iterator visits exactly the source items and
/// `collect` into a `Vec` assembles the mapped results in source order,
/// so the call returns precisely the rows the verified `render_row`
/// (the only thing the closure calls) produces one by one.
#[verifier::external_body]
fn par_map_rows(ys: &Vec<i64>, xs: &Vec<i64>, budget: usize, palette: &Vec<Rgb>) -> (rows: Vec<
    Vec<Rgb>,
>)
    requires
        palette@.len() >= budget,
        forall|k: int| 0 <= k < xs@.len() ==> -COORD_MAX <= #[trigger] xs@[k] <= COORD_MAX,
        forall|k: int| 0 <= k < ys@.len() ==> -COORD_MAX <= #[trigger] ys@[k] <= COORD_MAX,
    ensures
        rows@.len() == ys@.len(),
        forall|k: int| 0 <= k < ys@.len() ==> #[trigger] rows@[k]@ == row_seq(
            ys@[k] as int,
            xs@,
            budget as nat,
            palette@,
        ),
{
    ys.par_iter().map(|j: &i64| render_row(*j, xs, budget, palette)).collect()
}

/// Row-major cell order: a cell of an earlier row comes before every
/// cell of a later one.
proof fn lemma_row_major_index(yy: int, xx: int, y: int, w: int)
    requires
        0 <= yy < y,
        0 <= xx < w,
    ensures
        0 <= yy * w + xx,
        yy * w + xx < y * w,
{
    lemma_mul_is_distributive_add_other_way(w, yy, 1);
    lemma_mul_basics(w);
    lemma_mul_inequality(yy + 1, y, w);
    lemma_mul_nonnegative(yy, w);
}

/// Renders the full raster: builds the palette and the two coordinate
/// tables, evaluates every pixel of the grid (rows in parallel) and
/// returns the buffer in row-major order — cell `(x, y)` at index
/// `y * width + x`, every cell written exactly once. Fails with
/// `Parameter`, producing nothing, if and only if the job violates the
/// RenderParameters invariant.
pub fn mandel_brot(settings: &MandelBrotSettings) -> (r: Result<Vec<Rgb>, RenderError>)
    requires
        settings.width <= 65536,
        settings.height <= 65536,
        -COORD_MAX <= settings.x1 <= COORD_MAX,
        -COORD_MAX <= settings.x2 <= COORD_MAX,
        -COORD_MAX <= settings.y1 <= COORD_MAX,
        -COORD_MAX <= settings.y2 <= COORD_MAX,
        settings.budget <= 1000000,
        settings.speed <= 1000000,
    ensures
        valid_settings(*settings) <==> r is Ok,
        !valid_settings(*settings) ==> r == Err::<Vec<Rgb>, RenderError>(RenderError::Parameter),
        r matches Ok(data) ==> data@.len() == settings.width * settings.height,
        r matches Ok(data) ==> forall|x: int, y: int|
            0 <= x < settings.width && 0 <= y < settings.height
                ==> #[trigger] data@[y * settings.width + x] == eval_color(
                coord_at(x, settings.width as int, settings.x1 as int, settings.x2 as int),
                coord_at(y, settings.height as int, settings.y1 as int, settings.y2 as int),
                settings.budget as nat,
                palette_seq(settings.budget as nat, settings.speed as int),
            ),
{
    if settings.width == 0 || settings.height == 0 || settings.x1 == settings.x2 || settings.y1
        == settings.y2 || settings.budget == 0 {
        return Err(RenderError::Parameter);
    }
    let palette: Vec<Rgb> = gen_palette(settings.budget, settings.speed);
    let tables: (Vec<i64>, Vec<i64>) = normal_gen(settings);
    let arrx: Vec<i64> = tables.0;
    let arry: Vec<i64> = tables.1;
    let rows: Vec<Vec<Rgb>> = par_map_rows(&arry, &arrx, settings.budget, &palette);
    let w: usize = settings.width as usize;
    let h: usize = settings.height as usize;
    let mut data: Vec<Rgb> = Vec::new();
    let mut y: usize = 0;
    while y < h
        invariant
            y <= h,
            w >= 1,
            w == settings.width,
            h == settings.height,
            rows@.len() == h,
            forall|k: int| 0 <= k < h ==> #[trigger] rows@[k]@.len() == w,
            data@.len() == y * w,
            forall|k: int| 0 <= k < data@.len() ==> #[trigger] data@[k] == rows@[k / (w as int)]@[k
                % (w as int)],
        decreases h - y,
    {
        let mut x: usize = 0;
        while x < w
            invariant
                x <= w,
                y < h,
                w >= 1,
                rows@.len() == h,
                forall|k: int| 0 <= k < h ==> #[trigger] rows@[k]@.len() == w,
                data@.len() == y * w + x,
                forall|k: int| 0 <= k < data@.len() ==> #[trigger] data@[k] == rows@[k / (
                w as int)]@[k % (w as int)],
            decreases w - x,
        {
            let cell: Rgb = rows[y][x];
            data.push(cell);
            proof {
                lemma_fundamental_div_mod_converse(
                    (y * w + x) as int,
                    w as int,
                    y as int,
                    x as int,
                );
            }
            x = x + 1;
        }
        proof {
            assert((y + 1) * w == y * w + w) by (nonlinear_arith);
        }
        y = y + 1;
    }
    proof {
        lemma_mul_is_commutative(h as int, w as int);
        assert forall|x: int, yy: int|
            0 <= x < settings.width && 0 <= yy < settings.height implies #[trigger] data@[yy
            * (settings.width as int) + x] == eval_color(
            coord_at(x, settings.width as int, settings.x1 as int, settings.x2 as int),
            coord_at(yy, settings.height as int, settings.y1 as int, settings.y2 as int),
            settings.budget as nat,
            palette_seq(settings.budget as nat, settings.speed as int),
        ) by {
            lemma_row_major_index(yy, x, h as int, w as int);
            lemma_fundamental_div_mod_converse(
                yy * (w as int) + x,
                w as int,
                yy,
                x,
            );
            assert(data@[yy * (w as int) + x] == rows@[yy]@[x]);
            assert(rows@[yy]@ == row_seq(
                arry@[yy] as int,
                arrx@,
                settings.budget as nat,
                palette_seq(settings.budget as nat, settings.speed as int),
            ));
        }
    }
    Ok(data)
}

} // verus!
