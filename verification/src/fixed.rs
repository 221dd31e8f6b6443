//! The fixed-point number representation shared by the whole crate, and the
//! small arithmetic helpers (Euclidean remainder, scaled multiplication and
//! division) that the coordinate pipeline is built from.

use vstd::prelude::*;

verus! {

/// Micro-degrees per degree: angles are held in micro-degrees.
pub const SCALE: i64 = 1_000_000;

/// The scale of trigonometric ratios: `SIN_SCALE` stands for the real
/// value one. It is a thousand times finer than the angle scale, so that
/// the sine still changes from one micro-degree to the next wherever its
/// slope is not almost flat; the arcsine then inverts it exactly there.
pub const SIN_SCALE: i64 = 1_000_000_000;

/// A full circle, in micro-degrees.
pub const FULL_TURN: i64 = 360_000_000;

/// Half a circle, in micro-degrees.
pub const HALF_TURN: i64 = 180_000_000;

/// A quarter circle, in micro-degrees.
pub const QUARTER_TURN: i64 = 90_000_000;

/// For a positive divisor, flooring division never moves the quotient
/// further from zero than the dividend is.
pub proof fn lemma_div_shrinks(a: int, b: int)
    requires
        b >= 1,
    ensures
        a >= 0 ==> 0 <= a / b <= a,
        a < 0 ==> a <= a / b <= 0,
{
    vstd::arithmetic::div_mod::lemma_fundamental_div_mod(a, b);
    let q = a / b;
    let r = a % b;
    vstd::arithmetic::div_mod::lemma_mod_bound(a, b);
    if a >= 0 {
        vstd::arithmetic::div_mod::lemma_div_pos_is_pos(a, b);
        vstd::arithmetic::div_mod::lemma_div_nonincreasing(a, b);
    } else {
        if q >= 0 {
            assert(b * q >= 0) by (nonlinear_arith)
                requires
                    q >= 0,
                    b >= 1,
            ;
            assert(a == b * q + r && b * q >= 0 && r >= 0 && a < 0);
            assert(false);
        }
        assert(q <= -1);
        assert(-q * (b - 1) >= b - 1) by (nonlinear_arith)
            requires
                q <= -1,
                b >= 1,
        ;
        assert(q - a == q - (b * q + r));
        assert(q - (b * q + r) == -q * (b - 1) - r) by (nonlinear_arith);
        assert(q - a >= 0);
    }
}

/// Euclidean remainder by a positive modulus: the result is always in
/// `[0, m)`, also for negative `a`. This is the normalization that keeps
/// every angle of the pipeline inside `[0, 360)` degrees.
pub fn euclid_mod_i128(a: i128, m: i128) -> (r: i128)
    requires
        m > 0,
    ensures
        r == a % m,
        0 <= r < m,
{
    proof {
        vstd::arithmetic::div_mod::lemma_mod_bound(a as int, m as int);
    }
    a.checked_rem_euclid(m).unwrap()
}

/// Euclidean remainder by a positive modulus on `i64`, result in `[0, m)`.
pub fn euclid_mod_i64(a: i64, m: i64) -> (r: i64)
    requires
        m > 0,
    ensures
        r == a % m,
        0 <= r < m,
{
    proof {
        vstd::arithmetic::div_mod::lemma_mod_bound(a as int, m as int);
    }
    a.checked_rem_euclid(m).unwrap()
}

/// Flooring division by a positive divisor (the quotient of Euclidean
/// division, which rounds towards minus infinity when `b > 0`).
pub fn div_floor_i128(a: i128, b: i128) -> (q: i128)
    requires
        b > 0,
    ensures
        q == a / b,
{
    proof {
        lemma_div_shrinks(a as int, b as int);
    }
    a.checked_div_euclid(b).unwrap()
}

/// Flooring division by a positive divisor on `i64`.
pub fn div_floor_i64(a: i64, b: i64) -> (q: i64)
    requires
        b > 0,
    ensures
        q == a / b,
{
    proof {
        lemma_div_shrinks(a as int, b as int);
    }
    a.checked_div_euclid(b).unwrap()
}

/// The product of two fixed-point ratios, rescaled back:
/// `(a * b) / SIN_SCALE` with flooring division.
pub open spec fn smul(a: int, b: int) -> int {
    (a * b) / (SIN_SCALE as int)
}

/// The quotient of two fixed-point ratios, rescaled: `(a * SIN_SCALE) / b`.
/// The division floors against the magnitude of the divisor and carries
/// the divisor's sign, so only divisions by positive numbers arise.
pub open spec fn sdiv(a: int, b: int) -> int {
    if b >= 0 {
        (a * SIN_SCALE) / b
    } else {
        -((a * SIN_SCALE) / (-b))
    }
}

/// Fixed-point multiplication of two ratios of magnitude at most one; the
/// result again has magnitude at most one.
pub fn s_mul(a: i64, b: i64) -> (r: i64)
    requires
        -SIN_SCALE <= a <= SIN_SCALE,
        -SIN_SCALE <= b <= SIN_SCALE,
    ensures
        r == smul(a as int, b as int),
        -SIN_SCALE <= r <= SIN_SCALE,
{
    proof {
        assert(-1_000_000_000_000_000_000 <= (a as int) * (b as int)
            <= 1_000_000_000_000_000_000) by (nonlinear_arith)
            requires
                -1_000_000_000 <= a as int <= 1_000_000_000,
                -1_000_000_000 <= b as int <= 1_000_000_000,
        ;
    }
    let p: i128 = (a as i128) * (b as i128);
    proof {
        vstd::arithmetic::div_mod::lemma_div_is_ordered(
            p as int,
            1_000_000_000_000_000_000,
            1_000_000_000,
        );
        vstd::arithmetic::div_mod::lemma_div_is_ordered(
            -1_000_000_000_000_000_000,
            p as int,
            1_000_000_000,
        );
        assert((1_000_000_000_000_000_000int) / 1_000_000_000int == 1_000_000_000int);
        assert((-1_000_000_000_000_000_000int) / 1_000_000_000int == -1_000_000_000int);
    }
    let q: i128 = div_floor_i128(p, SIN_SCALE as i128);
    q as i64
}

/// Fixed-point division `sdiv(a, b)` for a numerator of magnitude at most
/// two and a nonzero denominator of magnitude at most one.
pub fn s_div(a: i64, b: i64) -> (r: i64)
    requires
        -2 * SIN_SCALE <= a <= 2 * SIN_SCALE,
        -SIN_SCALE <= b <= SIN_SCALE,
        b != 0,
    ensures
        r == sdiv(a as int, b as int),
        -2 * SIN_SCALE * SIN_SCALE <= r <= 2 * SIN_SCALE * SIN_SCALE,
{
    proof {
        assert(-2_000_000_000_000_000_000 <= (a as int) * (SIN_SCALE as int)
            <= 2_000_000_000_000_000_000) by (nonlinear_arith)
            requires
                -2_000_000_000 <= a as int <= 2_000_000_000,
                SIN_SCALE as int == 1_000_000_000,
        ;
    }
    let p: i128 = (a as i128) * (SIN_SCALE as i128);
    proof {
        assert(-2_000_000_000_000_000_000 <= p as int <= 2_000_000_000_000_000_000);
        if b > 0 {
            lemma_div_shrinks(p as int, b as int);
        } else {
            lemma_div_shrinks(p as int, -(b as int));
        }
    }
    let q: i128 = if b > 0 {
        div_floor_i128(p, b as i128)
    } else {
        -div_floor_i128(p, -(b as i128))
    };
    proof {
        assert(-2_000_000_000_000_000_000 <= q as int <= 2_000_000_000_000_000_000);
    }
    q as i64
}

/// The clamp of a fixed-point ratio into `[-SIN_SCALE, SIN_SCALE]`, the
/// domain of the arcsine.
pub open spec fn spec_clamp_unit(x: int) -> int {
    if x < -(SIN_SCALE as int) {
        -(SIN_SCALE as int)
    } else if x > SIN_SCALE as int {
        SIN_SCALE as int
    } else {
        x
    }
}

/// Clamps a fixed-point ratio into `[-SIN_SCALE, SIN_SCALE]`.
pub fn clamp_unit(x: i64) -> (r: i64)
    ensures
        r == spec_clamp_unit(x as int),
        -SIN_SCALE <= r <= SIN_SCALE,
{
    if x < -SIN_SCALE {
        -SIN_SCALE
    } else if x > SIN_SCALE {
        SIN_SCALE
    } else {
        x
    }
}

} // verus!
