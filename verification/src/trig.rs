//! Integer trigonometry in milli-degrees and milli-units.
//!
//! Instead of real-valued `sin`, `cos` and `atan2`, this crate uses
//! deterministic fixed-point rational approximations, so that every
//! caller can be verified exactly against the functions defined here.
//! `sin_approx` uses Bhaskara's rational approximation of the sine
//! (exact at every multiple of 90 degrees, within 0.2% elsewhere);
//! `atan2_approx` uses a quadratic approximation of the arctangent
//! after octant reduction (exact at every multiple of 45 degrees).

use vstd::prelude::*;
use crate::consts::{DEG_FULL, POS_LIMIT};
use crate::fixed::absi;

verus! {

/// Bhaskara's sine approximation on a half turn, in milli-units:
/// `x` in `[0, 180_000]` milli-degrees, result in `[0, 1000]`.
pub open spec fn sin_half(x: int) -> int {
    let q = x * (180_000 - x);
    4000 * q / (40_500_000_000 - q)
}

/// The crate's sine: any angle in milli-degrees to `[-1000, 1000]`.
pub open spec fn sin_approx(a: int) -> int {
    let r = a % 360_000;
    if r <= 180_000 {
        sin_half(r)
    } else {
        -sin_half(r - 180_000)
    }
}

/// The crate's cosine, defined as the sine shifted a quarter turn.
pub open spec fn cos_approx(a: int) -> int {
    sin_approx(a + 90_000)
}

proof fn lemma_sin_half_range(x: int)
    by (nonlinear_arith)
    requires
        0 <= x <= 180_000,
    ensures
        0 <= x * (180_000 - x) <= 8_100_000_000,
        0 <= sin_half(x) <= 1000,
{
    let q = x * (180_000 - x);
    assert(4000 * q <= 1000 * (40_500_000_000 - q));
}

/// The sine approximation always stays within one milli-unit of scale.
pub proof fn lemma_sin_bounds(a: int)
    ensures
        -1000 <= sin_approx(a) <= 1000,
{
    let r = a % 360_000;
    vstd::arithmetic::div_mod::lemma_mod_bound(a, 360_000);
    if r <= 180_000 {
        lemma_sin_half_range(r);
    } else {
        lemma_sin_half_range(r - 180_000);
    }
}

/// Normalize an angle into `[0, 360_000)` milli-degrees.
pub fn norm_deg(a: i64) -> (r: i64)
    ensures
        r == (a as int) % (DEG_FULL as int),
        0 <= r < DEG_FULL,
{
    proof {
        vstd::arithmetic::div_mod::lemma_mod_bound(a as int, DEG_FULL as int);
    }
    a.checked_rem_euclid(DEG_FULL).unwrap()
}

fn sin_half_exec(x: i64) -> (r: i64)
    requires
        0 <= x <= 180_000,
    ensures
        r == sin_half(x as int),
        0 <= r <= 1000,
{
    proof {
        lemma_sin_half_range(x as int);
    }
    let q: u64 = (x as u64) * ((180_000 - x) as u64);
    let num: u64 = 4000 * q;
    let den: u64 = 40_500_000_000 - q;
    (num / den) as i64
}

/// The crate's executable sine in milli-degrees.
pub fn sin_mdeg(a: i64) -> (r: i64)
    ensures
        r == sin_approx(a as int),
        -1000 <= r <= 1000,
{
    let x = norm_deg(a);
    if x <= 180_000 {
        sin_half_exec(x)
    } else {
        -sin_half_exec(x - 180_000)
    }
}

/// The crate's executable cosine in milli-degrees.
pub fn cos_mdeg(a: i64) -> (r: i64)
    requires
        a <= i64::MAX - 90_000,
    ensures
        r == cos_approx(a as int),
        -1000 <= r <= 1000,
{
    sin_mdeg(a + 90_000)
}

/// Quadratic arctangent approximation: `z` is a ratio in `[0, 1000]`
/// milli-units, the result an angle in `[0, 45_000]` milli-degrees.
pub open spec fn atan_ratio(z: int) -> int {
    45 * z + 159 * z * (1000 - z) / 10_000
}

proof fn lemma_atan_ratio_range(z: int)
    by (nonlinear_arith)
    requires
        0 <= z <= 1000,
    ensures
        0 <= atan_ratio(z) <= 45_000,
        0 <= 159 * z * (1000 - z) <= 39_750_000,
{
    assert(z * (1000 - z) <= 250_000);
    assert(159 * z * (1000 - z) / 10_000 <= 159 * (1000 - z) * 100 / 1000);
}

fn atan_ratio_exec(z: i64) -> (r: i64)
    requires
        0 <= z <= 1000,
    ensures
        r == atan_ratio(z as int),
        0 <= r <= 45_000,
{
    proof {
        lemma_atan_ratio_range(z as int);
    }
    let extra: u64 = (159 * (z as u64) * ((1000 - z) as u64)) / 10_000;
    45 * z + (extra as i64)
}

/// The crate's `atan2` in milli-degrees: the angle of the vector
/// `(x, y)` measured from the positive x axis, in
/// `[-180_000, 180_000]`, with the convention `atan2_approx(0, 0) == 0`.
pub open spec fn atan2_approx(y: int, x: int) -> int {
    let ax = absi(x);
    let ay = absi(y);
    let t = if ax >= ay {
        if ax == 0 {
            0
        } else {
            atan_ratio(1000 * ay / ax)
        }
    } else {
        90_000 - atan_ratio(1000 * ax / ay)
    };
    if x >= 0 && y >= 0 {
        t
    } else if x < 0 && y >= 0 {
        180_000 - t
    } else if x < 0 {
        -(180_000 - t)
    } else {
        -t
    }
}

proof fn lemma_ratio_in_range(ay: int, ax: int)
    by (nonlinear_arith)
    requires
        0 <= ay <= ax,
        1 <= ax,
    ensures
        0 <= 1000 * ay / ax <= 1000,
{
    assert(1000 * ay <= 1000 * ax);
}

/// The octant angle of `(x, y)` before sign adjustment.
proof fn lemma_atan2_octant(y: int, x: int)
    ensures
        ({
            let ax = absi(x);
            let ay = absi(y);
            let t = if ax >= ay {
                if ax == 0 {
                    0
                } else {
                    atan_ratio(1000 * ay / ax)
                }
            } else {
                90_000 - atan_ratio(1000 * ax / ay)
            };
            0 <= t <= 90_000
        }),
{
    let ax = absi(x);
    let ay = absi(y);
    if ax >= ay {
        if ax != 0 {
            lemma_ratio_in_range(ay, ax);
            lemma_atan_ratio_range(1000 * ay / ax);
        }
    } else {
        lemma_ratio_in_range(ax, ay);
        lemma_atan_ratio_range(1000 * ax / ay);
    }
}

/// The approximation stays within a half turn either way.
pub proof fn lemma_atan2_bounds(y: int, x: int)
    ensures
        -180_000 <= atan2_approx(y, x) <= 180_000,
        y >= 0 ==> atan2_approx(y, x) >= 0,
        y < 0 ==> atan2_approx(y, x) <= 0,
{
    lemma_atan2_octant(y, x);
}

/// The crate's executable `atan2` in milli-degrees.
pub fn atan2_mdeg(y: i64, x: i64) -> (r: i64)
    requires
        absi(x as int) <= 2 * POS_LIMIT,
        absi(y as int) <= 2 * POS_LIMIT,
    ensures
        r == atan2_approx(y as int, x as int),
        -180_000 <= r <= 180_000,
{
    proof {
        lemma_atan2_octant(y as int, x as int);
    }
    let ax: i64 = if x >= 0 { x } else { -x };
    let ay: i64 = if y >= 0 { y } else { -y };
    let t: i64 = if ax >= ay {
        if ax == 0 {
            0
        } else {
            proof {
                lemma_ratio_in_range(ay as int, ax as int);
            }
            let z = ((1000 * (ay as u64)) / (ax as u64)) as i64;
            atan_ratio_exec(z)
        }
    } else {
        proof {
            lemma_ratio_in_range(ax as int, ay as int);
        }
        let z = ((1000 * (ax as u64)) / (ay as u64)) as i64;
        90_000 - atan_ratio_exec(z)
    };
    if x >= 0 && y >= 0 {
        t
    } else if x < 0 && y >= 0 {
        180_000 - t
    } else if x < 0 {
        -(180_000 - t)
    } else {
        -t
    }
}

/// The game's angle convention: a raw `atan2` result (in
/// `[-180_000, 180_000]`) is shifted by 270 degrees when non-negative
/// and by 630 degrees when negative, then reduced into a full turn.
/// Both shifts agree modulo a full turn, so the result is
/// `(raw + 270_000) % 360_000`.
pub open spec fn aim_from_raw(raw: int) -> int {
    (raw + 270_000) % 360_000
}

/// Normalize a raw `atan2` angle with the game's asymmetric convention.
pub fn aim_angle(raw: i64) -> (r: i64)
    requires
        -180_000 <= raw <= 180_000,
    ensures
        r == aim_from_raw(raw as int),
        0 <= r < DEG_FULL,
{
    if raw >= 0 {
        norm_deg(raw + 270_000)
    } else {
        proof {
            vstd::arithmetic::div_mod::lemma_mod_multiples_vanish(
                1,
                raw + 270_000,
                360_000,
            );
        }
        norm_deg(raw + 630_000)
    }
}

} // verus!
