//! Fixed-point trigonometry on micro-degrees. The sine on `[0, 180]`
//! degrees is the classical rational approximation `4 t (180 - t) /
//! (40500 - t (180 - t))` (exact at 0, 30, 90, 150 and 180 degrees,
//! within about 1.7 parts in a thousand of the true sine between them —
//! results that combine several of these ratios can differ from their
//! real-trigonometry values by up to about a tenth of a degree),
//! extended to the whole circle by periodicity and point symmetry. The
//! arcsine and the two-argument arctangent are defined as the least angle
//! whose (co)sine crosses the given ratio, and computed by bisection, so
//! that each is by construction an exact inverse notion for this sine:
//! where the sine's slope does not flatten at ratio resolution (away
//! from the poles), the arcsine of an angle's sine is that angle again.

use vstd::prelude::*;
use crate::fixed::{SIN_SCALE, FULL_TURN, HALF_TURN, QUARTER_TURN};

verus! {

/// The denominator constant of the rational sine: `40500` square degrees
/// expressed in square micro-degrees.
pub const SINE_DEN: i64 = 40_500_000_000_000_000;

/// The rational sine on `[0, HALF_TURN]` micro-degrees, scaled by `SIN_SCALE`.
pub open spec fn spec_sin_half(t: int) -> int {
    let u = t * (HALF_TURN - t);
    (4 * u * SIN_SCALE) / (SINE_DEN - u)
}

/// The sine of any micro-degree angle, scaled by `SIN_SCALE`: the angle is
/// normalized into `[0, FULL_TURN)` and the second half-turn is the
/// negated mirror of the first.
pub open spec fn spec_sin(x: int) -> int {
    let t = x % (FULL_TURN as int);
    if t < HALF_TURN {
        spec_sin_half(t)
    } else {
        -spec_sin_half(t - HALF_TURN)
    }
}

/// The cosine, as the sine advanced by a quarter turn.
pub open spec fn spec_cos(x: int) -> int {
    spec_sin(x + QUARTER_TURN)
}

/// The product `t * (HALF_TURN - t)` stays within `[0, 8.1e15]` on the
/// half-turn domain, which bounds every intermediate of the rational sine.
proof fn lemma_sine_arg_bound(t: int)
    requires
        0 <= t <= HALF_TURN,
    ensures
        0 <= t * (HALF_TURN - t) <= 8_100_000_000_000_000,
{
    assert(0 <= t * (180_000_000 - t) <= 8_100_000_000_000_000) by (nonlinear_arith)
        requires
            0 <= t <= 180_000_000,
    ;
}

/// The rational sine lies in `[0, SIN_SCALE]` on its half-turn domain.
pub proof fn lemma_sin_half_range(t: int)
    requires
        0 <= t <= HALF_TURN,
    ensures
        0 <= spec_sin_half(t) <= SIN_SCALE,
{
    lemma_sine_arg_bound(t);
    let u = t * (HALF_TURN - t);
    let num = 4 * u * (SIN_SCALE as int);
    let den = (SINE_DEN as int) - u;
    assert(num >= 0 && num <= den * 1_000_000_000) by (nonlinear_arith)
        requires
            0 <= u <= 8_100_000_000_000_000,
            num == 4 * u * 1_000_000_000,
            den == 40_500_000_000_000_000 - u,
    ;
    vstd::arithmetic::div_mod::lemma_div_pos_is_pos(num, den);
    vstd::arithmetic::div_mod::lemma_multiply_divide_le(num, den, 1_000_000_000);
}

/// The sine of any angle lies in `[-SIN_SCALE, SIN_SCALE]`.
pub proof fn lemma_sin_range(x: int)
    ensures
        -SIN_SCALE <= spec_sin(x) <= SIN_SCALE,
{
    vstd::arithmetic::div_mod::lemma_mod_bound(x, FULL_TURN as int);
    let t = x % (FULL_TURN as int);
    if t < HALF_TURN {
        lemma_sin_half_range(t);
    } else {
        lemma_sin_half_range(t - HALF_TURN);
    }
}

/// The rational sine is monotone (non-decreasing) on the first quarter
/// turn.
pub proof fn lemma_sin_half_mono(t1: int, t2: int)
    requires
        0 <= t1 <= t2 <= QUARTER_TURN,
    ensures
        spec_sin_half(t1) <= spec_sin_half(t2),
{
    lemma_sine_arg_bound(t1);
    lemma_sine_arg_bound(t2);
    lemma_sin_half_range(t1);
    let u1 = t1 * (HALF_TURN - t1);
    let u2 = t2 * (HALF_TURN - t2);
    assert(u1 <= u2) by (nonlinear_arith)
        requires
            0 <= t1 <= t2 <= 90_000_000,
            u1 == t1 * (180_000_000 - t1),
            u2 == t2 * (180_000_000 - t2),
    ;
    let a1 = 4 * u1 * (SIN_SCALE as int);
    let a2 = 4 * u2 * (SIN_SCALE as int);
    let b1 = (SINE_DEN as int) - u1;
    let b2 = (SINE_DEN as int) - u2;
    let q1 = a1 / b1;
    assert(a1 >= 0) by (nonlinear_arith)
        requires
            u1 >= 0,
            a1 == 4 * u1 * 1_000_000_000,
    ;
    vstd::arithmetic::div_mod::lemma_div_pos_is_pos(a1, b1);
    vstd::arithmetic::div_mod::lemma_fundamental_div_mod(a1, b1);
    vstd::arithmetic::div_mod::lemma_mod_bound(a1, b1);
    assert(b1 * q1 <= a1);
    assert(a1 * b2 <= a2 * b1) by (nonlinear_arith)
        requires
            0 <= u1 <= u2 <= 8_100_000_000_000_000,
            a1 == 4 * u1 * 1_000_000_000,
            a2 == 4 * u2 * 1_000_000_000,
            b1 == 40_500_000_000_000_000 - u1,
            b2 == 40_500_000_000_000_000 - u2,
    ;
    assert(q1 * b2 <= a2) by (nonlinear_arith)
        requires
            b1 * q1 <= a1,
            a1 * b2 <= a2 * b1,
            b1 > 0,
            b2 > 0,
            a1 >= 0,
            q1 >= 0,
    ;
    assert(a2 / b2 >= q1) by {
        vstd::arithmetic::div_mod::lemma_fundamental_div_mod(a2, b2);
        vstd::arithmetic::div_mod::lemma_mod_bound(a2, b2);
        let q2 = a2 / b2;
        if q2 < q1 {
            assert(b2 * q2 + b2 <= a2) by (nonlinear_arith)
                requires
                    q2 + 1 <= q1,
                    b2 > 0,
                    q1 * b2 <= a2,
            ;
            assert(a2 == b2 * q2 + a2 % b2);
            assert(a2 % b2 < b2);
            assert(false);
        }
    }
}

/// Evaluates the rational sine on `[0, HALF_TURN]` micro-degrees.
pub fn sin_half(t: i64) -> (r: i64)
    requires
        0 <= t <= HALF_TURN,
    ensures
        r as int == spec_sin_half(t as int),
        0 <= r <= SIN_SCALE,
{
    proof {
        lemma_sine_arg_bound(t as int);
        lemma_sin_half_range(t as int);
    }
    let u: i128 = (t as i128) * ((HALF_TURN as i128) - (t as i128));
    let num: i128 = 4 * u * (SIN_SCALE as i128);
    let den: i128 = (SINE_DEN as i128) - u;
    let q: i128 = crate::fixed::div_floor_i128(num, den);
    q as i64
}

/// Evaluates the sine of any micro-degree angle; the result is scaled by
/// `SIN_SCALE` and lies in `[-SIN_SCALE, SIN_SCALE]`.
pub fn sin_fp(x: i64) -> (r: i64)
    ensures
        r as int == spec_sin(x as int),
        -SIN_SCALE <= r <= SIN_SCALE,
{
    let t: i64 = crate::fixed::euclid_mod_i64(x, FULL_TURN);
    if t < HALF_TURN {
        sin_half(t)
    } else {
        let s: i64 = sin_half(t - HALF_TURN);
        -s
    }
}

/// Evaluates the cosine of any micro-degree angle; the result is scaled by
/// `SIN_SCALE` and lies in `[-SIN_SCALE, SIN_SCALE]`.
pub fn cos_fp(x: i64) -> (r: i64)
    ensures
        r as int == spec_cos(x as int),
        -SIN_SCALE <= r <= SIN_SCALE,
{
    let t: i64 = crate::fixed::euclid_mod_i64(x, FULL_TURN);
    proof {
        vstd::arithmetic::div_mod::lemma_small_mod(90_000_000nat, 360_000_000nat);
        vstd::arithmetic::div_mod::lemma_add_mod_noop(
            x as int,
            QUARTER_TURN as int,
            FULL_TURN as int,
        );
        vstd::arithmetic::div_mod::lemma_mod_bound(x as int, FULL_TURN as int);
    }
    sin_fp(t + QUARTER_TURN)
}

/// The rational sine is mirror-symmetric about the quarter turn.
pub proof fn lemma_sin_half_mirror(s: int)
    ensures
        spec_sin_half(s) == spec_sin_half((HALF_TURN as int) - s),
{
    assert(s * ((HALF_TURN as int) - s) == ((HALF_TURN as int) - s) * (HALF_TURN as int - (
    HALF_TURN as int - s))) by (nonlinear_arith);
}

/// On the first half turn the full sine is the rational sine itself.
pub proof fn lemma_sin_first_half(x: int)
    requires
        0 <= x < HALF_TURN,
    ensures
        spec_sin(x) == spec_sin_half(x),
{
    vstd::arithmetic::div_mod::lemma_small_mod(x as nat, 360_000_000nat);
}

/// Within the fourth quarter turn (negative angles up to a quarter turn
/// below zero) the sine is the negated mirror of the rational sine.
pub proof fn lemma_sin_neg_quarter(x: int)
    requires
        -(QUARTER_TURN as int) <= x < 0,
    ensures
        spec_sin(x) == -spec_sin_half(-x),
{
    vstd::arithmetic::div_mod::lemma_fundamental_div_mod_converse(
        x,
        FULL_TURN as int,
        -1,
        x + FULL_TURN,
    );
    assert(x % (FULL_TURN as int) == x + FULL_TURN);
    assert(spec_sin(x) == -spec_sin_half(x + HALF_TURN));
    lemma_sin_half_mirror(x + HALF_TURN);
}

/// The first-quarter arcsine as a search: the least angle of the first
/// quarter turn whose rational sine reaches `y` (a quarter turn if none
/// does, which for `y <= SIN_SCALE` never happens).
pub open spec fn asin_search(y: int, t: int) -> int
    decreases (QUARTER_TURN as int) - t,
{
    if t < 0 || t >= QUARTER_TURN {
        QUARTER_TURN as int
    } else if spec_sin_half(t) >= y {
        t
    } else {
        asin_search(y, t + 1)
    }
}

/// The arcsine of a ratio in `[-SIN_SCALE, SIN_SCALE]`, in micro-degrees in
/// `[-QUARTER_TURN, QUARTER_TURN]`, odd in its argument.
pub open spec fn spec_asin(y: int) -> int {
    if y >= 0 {
        asin_search(y, 0)
    } else {
        -asin_search(-y, 0)
    }
}

/// What it means for `r` to be the first-quarter arcsine of `y`: the
/// rational sine reaches `y` at `r` and at no earlier angle.
pub open spec fn is_asin_unit(y: int, r: int) -> bool {
    &&& 0 <= r <= QUARTER_TURN
    &&& spec_sin_half(r) >= y
    &&& forall|t: int| 0 <= t < r ==> spec_sin_half(t) < y
}

/// What it means for `r` to be the arcsine of `y`, both signs included.
pub open spec fn is_asin(y: int, r: int) -> bool {
    if y >= 0 {
        is_asin_unit(y, r)
    } else {
        is_asin_unit(-y, -r)
    }
}

/// At most one angle is the first-quarter arcsine of a given ratio.
pub proof fn lemma_asin_unit_unique(y: int, r1: int, r2: int)
    requires
        is_asin_unit(y, r1),
        is_asin_unit(y, r2),
    ensures
        r1 == r2,
{
    if r1 < r2 {
        assert(spec_sin_half(r1) < y);
        assert(false);
    }
    if r2 < r1 {
        assert(spec_sin_half(r2) < y);
        assert(false);
    }
}

/// The rational sine reaches `SIN_SCALE` exactly at a quarter turn.
pub proof fn lemma_sin_half_quarter()
    ensures
        spec_sin_half(QUARTER_TURN as int) == SIN_SCALE,
        spec_sin_half(0) == 0,
{
    let u: int = 90_000_000int * (180_000_000int - 90_000_000int);
    assert(u == 8_100_000_000_000_000int) by (nonlinear_arith)
        requires
            u == 90_000_000int * (180_000_000int - 90_000_000int),
    ;
    let num: int = 4int * u * 1_000_000_000int;
    let den: int = 40_500_000_000_000_000int - u;
    assert(num == 32_400_000_000_000_000_000_000_000int);
    assert(den == 32_400_000_000_000_000int);
    assert(num == 1_000_000_000int * den + 0int) by (nonlinear_arith)
        requires
            num == 32_400_000_000_000_000_000_000_000int,
            den == 32_400_000_000_000_000int,
    ;
    vstd::arithmetic::div_mod::lemma_fundamental_div_mod_converse(
        num,
        den,
        1_000_000_000int,
        0int,
    );
    assert(spec_sin_half(QUARTER_TURN as int) == num / den);
    let u0: int = 0int * (180_000_000int - 0int);
    assert(u0 == 0int) by (nonlinear_arith)
        requires
            u0 == 0int * (180_000_000int - 0int),
    ;
    vstd::arithmetic::div_mod::lemma_div_of0(40_500_000_000_000_000int);
    assert(spec_sin_half(0) == 0int);
}

/// The search of `asin_search` indeed lands on the least crossing angle.
pub proof fn lemma_asin_search(y: int, t: int)
    requires
        0 <= t <= QUARTER_TURN,
        y <= SIN_SCALE,
        forall|s: int| 0 <= s < t ==> spec_sin_half(s) < y,
    ensures
        ({
            let r = asin_search(y, t);
            t <= r && is_asin_unit(y, r)
        }),
    decreases (QUARTER_TURN as int) - t,
{
    lemma_sin_half_quarter();
    if t >= QUARTER_TURN {
    } else if spec_sin_half(t) >= y {
    } else {
        lemma_asin_search(y, t + 1);
    }
}

/// First-quarter arcsine by bisection over the monotone rational sine.
fn asin_unit(y: i64) -> (r: i64)
    requires
        0 <= y <= SIN_SCALE,
    ensures
        is_asin_unit(y as int, r as int),
        r as int == asin_search(y as int, 0),
        0 <= r <= QUARTER_TURN,
{
    proof {
        lemma_sin_half_quarter();
    }
    let mut lo: i64 = 0;
    let mut hi: i64 = QUARTER_TURN;
    while lo < hi
        invariant
            0 <= lo <= hi <= QUARTER_TURN,
            0 <= y <= SIN_SCALE,
            spec_sin_half(hi as int) >= y as int,
            forall|s: int| 0 <= s < lo ==> spec_sin_half(s) < y as int,
        decreases hi - lo,
    {
        proof {
            crate::fixed::lemma_div_shrinks((hi - lo) as int, 2);
            vstd::arithmetic::div_mod::lemma_div_decreases((hi - lo) as int, 2);
        }
        let mid: i64 = lo + crate::fixed::div_floor_i64(hi - lo, 2);
        let s: i64 = sin_half(mid);
        if s >= y {
            hi = mid;
        } else {
            proof {
                assert forall|t: int| 0 <= t < mid + 1 implies spec_sin_half(t) < y as int by {
                    if lo <= t <= mid {
                        lemma_sin_half_mono(t, mid as int);
                    }
                }
            }
            lo = mid + 1;
        }
    }
    proof {
        lemma_asin_search(y as int, 0);
        lemma_asin_unit_unique(y as int, lo as int, asin_search(y as int, 0));
    }
    lo
}

/// The arcsine of a fixed-point ratio, in micro-degrees. The result is the
/// least first-quarter angle whose rational sine reaches the magnitude of
/// `y`, carried over to the sign of `y`; it always lies within a quarter
/// turn of zero.
pub fn asin_fp(y: i64) -> (r: i64)
    requires
        -SIN_SCALE <= y <= SIN_SCALE,
    ensures
        r as int == spec_asin(y as int),
        is_asin(y as int, r as int),
        -QUARTER_TURN <= r <= QUARTER_TURN,
{
    if y >= 0 {
        asin_unit(y)
    } else {
        let q: i64 = asin_unit(-y);
        -q
    }
}

/// The cosine restricted to the first quarter turn, by the mirror symmetry
/// of the rational sine.
pub open spec fn spec_cos_q(t: int) -> int {
    spec_sin_half((QUARTER_TURN as int) - t)
}

/// Whether the ray at first-quarter angle `t` has reached (or passed) the
/// direction of the point `(x, y)`: its tangent comparison
/// `x sin t >= y cos t`, kept in product form to avoid division.
pub open spec fn atan_reached(y: int, x: int, t: int) -> bool {
    x * spec_sin_half(t) >= y * spec_cos_q(t)
}

/// The first-quarter arctangent as a search: the least angle whose ray
/// has reached the direction of `(x, y)`.
pub open spec fn atan_search(y: int, x: int, t: int) -> int
    decreases (QUARTER_TURN as int) - t,
{
    if t < 0 || t >= QUARTER_TURN {
        QUARTER_TURN as int
    } else if atan_reached(y, x, t) {
        t
    } else {
        atan_search(y, x, t + 1)
    }
}

/// What it means for `r` to be the first-quarter arctangent of `(x, y)`.
pub open spec fn is_atan_q(y: int, x: int, r: int) -> bool {
    &&& 0 <= r <= QUARTER_TURN
    &&& atan_reached(y, x, r)
    &&& forall|t: int| 0 <= t < r ==> !atan_reached(y, x, t)
}

/// The two-argument arctangent in micro-degrees: the first-quarter search
/// on the magnitudes, placed into the proper quadrant, as a value in
/// `[0, FULL_TURN)`.
pub open spec fn spec_atan2(y: int, x: int) -> int {
    if y >= 0 && x >= 0 {
        atan_search(y, x, 0)
    } else if y >= 0 {
        (HALF_TURN as int) - atan_search(y, -x, 0)
    } else if x < 0 {
        (HALF_TURN as int) + atan_search(-y, -x, 0)
    } else {
        (FULL_TURN as int) - atan_search(-y, x, 0)
    }
}

/// At most one angle is the first-quarter arctangent of a given point.
pub proof fn lemma_atan_q_unique(y: int, x: int, r1: int, r2: int)
    requires
        is_atan_q(y, x, r1),
        is_atan_q(y, x, r2),
    ensures
        r1 == r2,
{
    if r1 < r2 {
        assert(!atan_reached(y, x, r1));
        assert(false);
    }
    if r2 < r1 {
        assert(!atan_reached(y, x, r2));
        assert(false);
    }
}

/// For a point in the closed first quadrant the quarter-turn ray has
/// always been reached: `x sin 90 >= y cos 90` is `x * SIN_SCALE >= 0`.
proof fn lemma_atan_reached_quarter(y: int, x: int)
    requires
        0 <= y,
        0 <= x,
    ensures
        atan_reached(y, x, QUARTER_TURN as int),
{
    lemma_sin_half_quarter();
    assert(spec_cos_q(QUARTER_TURN as int) == spec_sin_half(0));
    assert(x * 1_000_000_000 >= y * 0) by (nonlinear_arith)
        requires
            x >= 0,
            y >= 0,
    ;
}

/// Once reached, the direction stays reached at every later first-quarter
/// angle: the comparison is monotone along the quarter turn.
proof fn lemma_atan_reached_mono(y: int, x: int, t1: int, t2: int)
    requires
        0 <= y,
        0 <= x,
        0 <= t1 <= t2 <= QUARTER_TURN,
        atan_reached(y, x, t1),
    ensures
        atan_reached(y, x, t2),
{
    lemma_sin_half_mono(t1, t2);
    lemma_sin_half_mono((QUARTER_TURN as int) - t2, (QUARTER_TURN as int) - t1);
    lemma_sin_half_range(t1);
    lemma_sin_half_range(t2);
    lemma_sin_half_range((QUARTER_TURN as int) - t1);
    lemma_sin_half_range((QUARTER_TURN as int) - t2);
    assert(x * spec_sin_half(t2) >= y * spec_cos_q(t2)) by (nonlinear_arith)
        requires
            x >= 0,
            y >= 0,
            spec_sin_half(t1) <= spec_sin_half(t2),
            spec_cos_q(t2) <= spec_cos_q(t1),
            x * spec_sin_half(t1) >= y * spec_cos_q(t1),
    ;
}

/// The search of `atan_search` indeed lands on the least reached angle.
proof fn lemma_atan_search(y: int, x: int, t: int)
    requires
        0 <= y,
        0 <= x,
        0 <= t <= QUARTER_TURN,
        forall|s: int| 0 <= s < t ==> !atan_reached(y, x, s),
    ensures
        ({
            let r = atan_search(y, x, t);
            t <= r && is_atan_q(y, x, r)
        }),
    decreases (QUARTER_TURN as int) - t,
{
    lemma_atan_reached_quarter(y, x);
    if t >= QUARTER_TURN {
    } else if atan_reached(y, x, t) {
    } else {
        lemma_atan_search(y, x, t + 1);
    }
}

/// First-quarter arctangent by bisection over the monotone comparison.
fn atan_q(y: i64, x: i64) -> (r: i64)
    requires
        0 <= y,
        0 <= x,
    ensures
        is_atan_q(y as int, x as int, r as int),
        r as int == atan_search(y as int, x as int, 0),
        0 <= r <= QUARTER_TURN,
{
    proof {
        lemma_atan_reached_quarter(y as int, x as int);
    }
    let mut lo: i64 = 0;
    let mut hi: i64 = QUARTER_TURN;
    while lo < hi
        invariant
            0 <= lo <= hi <= QUARTER_TURN,
            0 <= y,
            0 <= x,
            atan_reached(y as int, x as int, hi as int),
            forall|s: int| 0 <= s < lo ==> !atan_reached(y as int, x as int, s),
        decreases hi - lo,
    {
        proof {
            crate::fixed::lemma_div_shrinks((hi - lo) as int, 2);
            vstd::arithmetic::div_mod::lemma_div_decreases((hi - lo) as int, 2);
        }
        let mid: i64 = lo + crate::fixed::div_floor_i64(hi - lo, 2);
        let s: i64 = sin_half(mid);
        let c: i64 = sin_half(QUARTER_TURN - mid);
        proof {
            assert(0 <= (x as int) * (s as int)
                <= 9_223_372_036_854_775_807_000_000_000int) by (nonlinear_arith)
                requires
                    0 <= x as int <= 9_223_372_036_854_775_807int,
                    0 <= s as int <= 1_000_000_000,
            ;
            assert(0 <= (y as int) * (c as int)
                <= 9_223_372_036_854_775_807_000_000_000int) by (nonlinear_arith)
                requires
                    0 <= y as int <= 9_223_372_036_854_775_807int,
                    0 <= c as int <= 1_000_000_000,
            ;
        }
        let lhs: i128 = (x as i128) * (s as i128);
        let rhs: i128 = (y as i128) * (c as i128);
        if lhs >= rhs {
            hi = mid;
        } else {
            proof {
                assert forall|t: int| 0 <= t < mid + 1 implies !atan_reached(
                    y as int,
                    x as int,
                    t,
                ) by {
                    if lo <= t <= mid {
                        if atan_reached(y as int, x as int, t) {
                            lemma_atan_reached_mono(y as int, x as int, t, mid as int);
                        }
                    }
                }
            }
            lo = mid + 1;
        }
    }
    proof {
        lemma_atan_search(y as int, x as int, 0);
        lemma_atan_q_unique(
            y as int,
            x as int,
            lo as int,
            atan_search(y as int, x as int, 0),
        );
    }
    lo
}

/// The two-argument arctangent of a fixed-point point `(x, y)`, in
/// micro-degrees, normalized into `[0, FULL_TURN)`. Quadrants are resolved
/// exactly; within a quadrant the angle is the least one whose ray reaches
/// the direction of the point.
pub fn atan2_fp(y: i64, x: i64) -> (r: i64)
    requires
        y > i64::MIN,
        x > i64::MIN,
    ensures
        r as int == spec_atan2(y as int, x as int),
        0 <= r < FULL_TURN,
{
    if y >= 0 && x >= 0 {
        atan_q(y, x)
    } else if y >= 0 {
        let q: i64 = atan_q(y, -x);
        HALF_TURN - q
    } else if x < 0 {
        let q: i64 = atan_q(-y, -x);
        HALF_TURN + q
    } else {
        let q: i64 = atan_q(-y, x);
        proof {
            if q as int == 0 {
                lemma_sin_half_quarter();
                assert(atan_reached(-(y as int), x as int, 0));
                assert(x * spec_sin_half(0) >= (-(y as int)) * spec_cos_q(0));
                assert(spec_cos_q(0) == spec_sin_half(QUARTER_TURN as int));
                assert(x * 0 == 0 && (-(y as int)) * 1_000_000_000 >= 1_000_000_000)
                    by (nonlinear_arith)
                    requires
                        -(y as int) >= 1,
                        x as int >= 0,
                ;
                assert(false);
            }
        }
        FULL_TURN - q
    }
}

} // verus!
