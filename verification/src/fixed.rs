//! Fixed-point numbers and the small vectors built from them.
//!
//! A coordinate is an `i64` that counts steps of `1 / UNIT`. A result has to
//! fit that range: the functions that compute one say so in what they
//! require, and their checked companions test it.

use vstd::prelude::*;

verus! {

/// Number of steps that make up one whole unit (one grid cell, one pixel).
pub const UNIT: i64 = 65536;

/// Whether `v` fits a coordinate.
pub open spec fn fits(v: int) -> bool {
    i64::MIN <= v <= i64::MAX
}

/// Half of `n`, a half step dropped: rounded toward zero.
pub open spec fn half_toward_zero(n: int) -> int {
    if n >= 0 {
        n / 2
    } else {
        -((-n) / 2)
    }
}

/// `n / d` rounded to the nearest integer, halves away from zero, for `d > 0`.
pub open spec fn round_div(n: int, d: int) -> int {
    if n >= 0 {
        (2 * n + d) / (2 * d)
    } else {
        -((d - 2 * n) / (2 * d))
    }
}

/// A wide intermediate result as a coordinate, if it fits.
pub fn narrow(v: i128) -> (r: Option<i64>)
    ensures
        fits(v as int) ==> r == Some(v as i64),
        !fits(v as int) ==> r is None,
{
    if v < i64::MIN as i128 || v > i64::MAX as i128 {
        None
    } else {
        Some(v as i64)
    }
}

/// Half of `n`, rounded toward zero.
pub fn half_toward_zero_i128(n: i128) -> (h: i128)
    requires
        n > i128::MIN,
    ensures
        h == half_toward_zero(n as int),
{
    if n >= 0 {
        n / 2
    } else {
        -((-n) / 2)
    }
}

/// Largest magnitude of a numerator or denominator that [`round_div_i128`]
/// takes: twice the numerator plus the denominator then still fits.
pub const ROUND_DIV_LIMIT: i128 = 0x1000_0000_0000_0000_0000_0000_0000;

/// Division rounded to the nearest integer, halves away from zero.
pub fn round_div_i128(n: i128, d: i128) -> (q: i128)
    requires
        0 < d <= ROUND_DIV_LIMIT,
        -ROUND_DIV_LIMIT <= n <= ROUND_DIV_LIMIT,
    ensures
        q == round_div(n as int, d as int),
{
    proof {
        lemma_round_div_bound(n as int, d as int);
    }
    if n >= 0 {
        (2 * n + d) / (2 * d)
    } else {
        -((d - 2 * n) / (2 * d))
    }
}

/// Rounded division never grows the numerator and keeps its sign.
pub proof fn lemma_round_div_bound(n: int, d: int)
    requires
        d > 0,
    ensures
        n >= 0 ==> 0 <= round_div(n, d) <= n,
        n <= 0 ==> n <= round_div(n, d) <= 0,
{
    let m: int = if n >= 0 { n } else { -n };
    let q: int = (2 * m + d) / (2 * d);
    assert(0 <= q <= m) by (nonlinear_arith)
        requires
            m >= 0,
            d > 0,
            q == (2 * m + d) / (2 * d),
    {
        if m == 0 {
            assert((2 * m + d) / (2 * d) == 0);
        } else {
            assert(2 * m + d < (m + 1) * (2 * d));
            assert((2 * m + d) / (2 * d) < m + 1);
        }
    }
}

/// The rounded quotient is a nearest integer: it misses `n / d` by at most
/// one half.
pub proof fn lemma_round_div_nearest(n: int, d: int)
    requires
        d > 0,
    ensures
        -d <= 2 * (n - round_div(n, d) * d) <= d,
{
    let m: int = if n >= 0 { n } else { -n };
    let q: int = (2 * m + d) / (2 * d);
    assert(-d <= 2 * (m - q * d) && 2 * (m - q * d) < d) by (nonlinear_arith)
        requires
            d > 0,
            q == (2 * m + d) / (2 * d),
    {
        let r: int = (2 * m + d) % (2 * d);
        assert(2 * m + d == (2 * d) * q + r);
        assert(0 <= r < 2 * d);
    }
    if n < 0 {
        assert(round_div(n, d) == -q);
        assert((-q) * d == -(q * d)) by (nonlinear_arith);
    }
}

/// The rounded quotient is the only integer that misses `n / d` by less
/// than one half, or by one half on the side away from zero.
pub proof fn lemma_round_div_unique(n: int, d: int, q: int)
    requires
        d > 0,
        n >= 0 ==> -d <= 2 * (n - q * d) < d,
        n < 0 ==> -d < 2 * (n - q * d) <= d,
    ensures
        round_div(n, d) == q,
{
    if n >= 0 {
        assert((2 * n + d) / (2 * d) == q) by (nonlinear_arith)
            requires
                d > 0,
                -d <= 2 * (n - q * d) < d,
        {
            let r: int = 2 * n + d - (2 * d) * q;
            assert(0 <= r < 2 * d);
            assert(2 * n + d == (2 * d) * q + r);
            assert(((2 * d) * q + r) / (2 * d) == q);
        }
    } else {
        assert((d - 2 * n) / (2 * d) == -q) by (nonlinear_arith)
            requires
                d > 0,
                -d < 2 * (n - q * d) <= d,
        {
            let r: int = d - 2 * n - (2 * d) * (-q);
            assert(0 <= r < 2 * d);
            assert(d - 2 * n == (2 * d) * (-q) + r);
            assert(((2 * d) * (-q) + r) / (2 * d) == -q);
        }
    }
}

/// Rounding an exact multiple gives the factor back.
pub proof fn lemma_round_div_multiple(k: int, d: int)
    requires
        d > 0,
    ensures
        round_div(k * d, d) == k,
{
    let m: int = if k >= 0 { k } else { -k };
    assert((2 * (m * d) + d) / (2 * d) == m) by (nonlinear_arith)
        requires
            d > 0,
            m >= 0,
    {
        assert(2 * (m * d) + d == (2 * d) * m + d);
        assert(0 <= d < 2 * d);
        assert(((2 * d) * m + d) / (2 * d) == m);
    }
    if k >= 0 {
        assert(k * d >= 0) by (nonlinear_arith)
            requires
                k >= 0,
                d > 0,
        ;
    } else {
        assert(k * d < 0 && m * d == -(k * d)) by (nonlinear_arith)
            requires
                k < 0,
                d > 0,
                m == -k,
        ;
    }
}

/// A point or an extent in the plane, in fixed-point coordinates.
#[derive(Clone, Copy, Debug, PartialEq, Eq, Structural)]
pub struct Vec2 {
    pub x: i64,
    pub y: i64,
}

/// A point in space, in fixed-point coordinates.
#[derive(Clone, Copy, Debug, PartialEq, Eq, Structural)]
pub struct Vec3 {
    pub x: i64,
    pub y: i64,
    pub z: i64,
}

/// Four fixed-point numbers: a rectangle given by two corners.
#[derive(Clone, Copy, Debug, PartialEq, Eq, Structural)]
pub struct Vec4 {
    pub x: i64,
    pub y: i64,
    pub z: i64,
    pub w: i64,
}

impl Vec2 {
    /// Whether both coordinates are whole units.
    pub open spec fn is_whole(self) -> bool {
        self.x % UNIT == 0 && self.y % UNIT == 0
    }

    /// The point with the given whole coordinates.
    pub fn from_whole(x: i32, y: i32) -> (v: Vec2)
        ensures
            v.x == x * UNIT,
            v.y == y * UNIT,
            v.is_whole(),
    {
        let vx: i64 = (x as i64) * UNIT;
        let vy: i64 = (y as i64) * UNIT;
        assert((x * 65536) % 65536 == 0 && (y * 65536) % 65536 == 0);
        Vec2 { x: vx, y: vy }
    }
}

impl Vec3 {
    /// The point with the given whole coordinates.
    pub fn from_whole(x: i32, y: i32, z: i32) -> (v: Vec3)
        ensures
            v.x == x * UNIT,
            v.y == y * UNIT,
            v.z == z * UNIT,
    {
        Vec3 { x: (x as i64) * UNIT, y: (y as i64) * UNIT, z: (z as i64) * UNIT }
    }
}

} // verus!
