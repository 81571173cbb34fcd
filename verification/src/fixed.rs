//! Fixed-point arithmetic helpers: truncating division (the integer
//! analogue of real-valued division), saturating addition, clamping,
//! and an integer square root.

use vstd::prelude::*;

verus! {

/// Absolute value of a mathematical integer.
pub open spec fn absi(a: int) -> int {
    if a >= 0 {
        a
    } else {
        -a
    }
}

/// Division rounding toward zero, which is how all fixed-point divisions
/// in this crate behave (spec `/` alone is Euclidean on negatives).
pub open spec fn tdiv(a: int, b: int) -> int {
    if a >= 0 {
        a / b
    } else {
        -((-a) / b)
    }
}

/// Saturating addition: exact until the magnitude limit, then pinned.
pub open spec fn sat(v: int, lim: int) -> int {
    if v > lim {
        lim
    } else if v < -lim {
        -lim
    } else {
        v
    }
}

/// Clamp a value into `[-lim, lim]`.
pub open spec fn clamp(v: int, lim: int) -> int {
    sat(v, lim)
}

proof fn lemma_mul_i64_fits(a: int, b: int)
    by (nonlinear_arith)
    requires
        i64::MIN <= a <= i64::MAX,
        i64::MIN <= b <= i64::MAX,
    ensures
        -0x4000_0000_0000_0000_0000_0000_0000_0000 <= a * b
            <= 0x4000_0000_0000_0000_0000_0000_0000_0000,
{
}

proof fn lemma_div_pos_le(a: int, b: int)
    by (nonlinear_arith)
    requires
        a >= 0,
        b >= 1,
    ensures
        0 <= a / b <= a,
{
}

/// A quotient is no larger than any bound the dividend stays under.
pub proof fn lemma_tdiv_bound(a: int, b: int, c: int)
    requires
        b >= 1,
        0 <= c,
        absi(a) <= c * b,
    ensures
        absi(tdiv(a, b)) <= c,
{
    let aa = absi(a);
    assert(aa / b <= c) by (nonlinear_arith)
        requires
            0 <= aa,
            b >= 1,
            0 <= c,
            aa <= c * b,
    {
    }
    assert(aa / b >= 0) by (nonlinear_arith)
        requires
            0 <= aa,
            b >= 1,
    {
    }
}

/// The magnitude of a product is bounded by the product of bounds.
pub proof fn lemma_mul_bound(x: int, y: int, mx: int, my: int)
    by (nonlinear_arith)
    requires
        absi(x) <= mx,
        absi(y) <= my,
    ensures
        absi(x * y) <= mx * my,
{
}

/// Truncating division on i128 values.
pub fn tdiv128(a: i128, b: i128) -> (r: i128)
    requires
        b >= 1,
        a > i128::MIN,
    ensures
        r == tdiv(a as int, b as int),
        absi(r as int) <= absi(a as int),
{
    proof {
        lemma_div_pos_le(absi(a as int), b as int);
    }
    if a >= 0 {
        (((a as u128) / (b as u128)) as i128)
    } else {
        let m = ((-a) as u128) / (b as u128);
        -(m as i128)
    }
}

/// Truncating division on i64 values.
pub fn tdiv64(a: i64, b: i64) -> (r: i64)
    requires
        b >= 1,
    ensures
        r == tdiv(a as int, b as int),
        absi(r as int) <= absi(a as int),
{
    let w = tdiv128(a as i128, b as i128);
    w as i64
}

/// `tdiv(a * b, d)` computed without intermediate overflow.
pub fn mul_tdiv(a: i64, b: i64, d: i64) -> (r: i64)
    requires
        d >= 1,
        tdiv(a as int * b as int, d as int) <= i64::MAX,
        tdiv(a as int * b as int, d as int) >= i64::MIN,
    ensures
        r == tdiv(a as int * b as int, d as int),
{
    proof {
        lemma_mul_i64_fits(a as int, b as int);
    }
    let p: i128 = (a as i128) * (b as i128);
    let q = tdiv128(p, d as i128);
    q as i64
}

/// Saturating addition pinned to `[-lim, lim]`.
pub fn sat_add(a: i64, b: i64, lim: i64) -> (r: i64)
    requires
        0 <= lim,
    ensures
        r == sat(a as int + b as int, lim as int),
{
    let s: i128 = (a as i128) + (b as i128);
    if s > lim as i128 {
        lim
    } else if s < -(lim as i128) {
        -lim
    } else {
        s as i64
    }
}

/// Clamp an i128 value into `[-lim, lim]` and narrow it to i64.
pub fn clamp128(v: i128, lim: i64) -> (r: i64)
    requires
        0 <= lim,
    ensures
        r == clamp(v as int, lim as int),
{
    if v > lim as i128 {
        lim
    } else if v < -(lim as i128) {
        -lim
    } else {
        v as i64
    }
}

/// The integer square root, as a spec-level function.
pub open spec fn sqrt_floor(n: int) -> int {
    choose|r: int| r >= 0 && #[trigger] (r * r) <= n < (r + 1) * (r + 1)
}

proof fn lemma_sqrt_unique(a: int, b: int, n: int)
    by (nonlinear_arith)
    requires
        a >= 0,
        b >= 0,
        a * a <= n < (a + 1) * (a + 1),
        b * b <= n < (b + 1) * (b + 1),
    ensures
        a == b,
{
}

/// Integer square root: the greatest `r` with `r * r <= n`.
pub fn isqrt64(n: u64) -> (r: u64)
    ensures
        r * r <= n,
        n < (r + 1) * (r + 1),
        r == sqrt_floor(n as int),
        r <= 0xFFFF_FFFF,
{
    if n == 0 {
        proof {
            assert(0int * 0int <= 0 && 0 < (0int + 1) * (0int + 1));
            lemma_sqrt_unique(0, sqrt_floor(0), 0);
        }
        return 0;
    }
    let mut lo: u64 = 0;
    let mut hi: u64 = 0x1_0000_0000;
    while lo + 1 < hi
        invariant
            lo < hi <= 0x1_0000_0000,
            lo * lo <= n,
            n < (hi as int) * (hi as int),
        decreases hi - lo,
    {
        let mid = lo + (hi - lo) / 2;
        proof {
            lemma_mul_i64_fits(mid as int, mid as int);
        }
        if (mid as u128) * (mid as u128) <= n as u128 {
            lo = mid;
        } else {
            hi = mid;
        }
    }
    proof {
        let li = lo as int;
        let ni = n as int;
        assert(li * li <= ni && ni < (li + 1) * (li + 1));
        lemma_sqrt_unique(li, sqrt_floor(ni), ni);
    }
    lo
}

} // verus!
