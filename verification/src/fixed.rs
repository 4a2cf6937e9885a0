//! Fixed-point scalars with sixteen fractional bits, and the integer
//! helpers the rest of the crate builds on.

use vstd::prelude::*;

verus! {

/// The raw value that stands for 1.0: a raw value `r` stands for `r / 65536`.
pub const ONE: i32 = 65536;

/// Division that rounds toward zero, for a positive divisor.
pub open spec fn trunc_div(n: int, d: int) -> int {
    if n >= 0 {
        n / d
    } else {
        -((-n) / d)
    }
}

/// Division that rounds toward zero, for any divisor but zero.
pub open spec fn quotient(n: int, d: int) -> int {
    if d > 0 {
        trunc_div(n, d)
    } else {
        trunc_div(-n, -d)
    }
}

/// Absolute value.
pub open spec fn abs(n: int) -> int {
    if n >= 0 {
        n
    } else {
        -n
    }
}

/// The point `num / den` of the way from `from` to `to`, rounded down.
pub open spec fn lerp(from: int, to: int, num: int, den: int) -> int {
    from + ((to - from) * num) / den
}

/// `n / 65536` rounded to the nearest integer, halves upward.
pub open spec fn round_units(n: int) -> int {
    (n + 32768) / 65536
}

/// Whether `r` is the integer square root of `n`.
pub open spec fn is_isqrt(n: int, r: int) -> bool {
    0 <= r && r * r <= n < (r + 1) * (r + 1)
}

/// The integer square root: the largest `r` with `r * r <= n`.
pub open spec fn isqrt(n: int) -> int {
    choose|r: int| is_isqrt(n, r)
}

/// A number has at most one integer square root.
pub proof fn lemma_isqrt_unique(n: int, r: int, s: int)
    requires
        is_isqrt(n, r),
        is_isqrt(n, s),
    ensures
        r == s,
{
    if r < s {
        assert((r + 1) * (r + 1) <= s * s) by (nonlinear_arith)
            requires
                0 <= r,
                r + 1 <= s,
        ;
    } else if s < r {
        assert((s + 1) * (s + 1) <= r * r) by (nonlinear_arith)
            requires
                0 <= s,
                s + 1 <= r,
        ;
    }
}

/// Whatever satisfies the defining inequalities is the integer square root.
pub proof fn lemma_isqrt_is(n: int, r: int)
    requires
        is_isqrt(n, r),
    ensures
        isqrt(n) == r,
{
    lemma_isqrt_unique(n, r, isqrt(n));
}

/// A linear interpolation never leaves the closed interval between its ends,
/// and reaches them at `0` and at `den`.
pub proof fn lemma_lerp_bounds(from: int, to: int, num: int, den: int)
    requires
        0 <= num <= den,
        0 < den,
    ensures
        from <= to ==> from <= lerp(from, to, num, den) <= to,
        to <= from ==> to <= lerp(from, to, num, den) <= from,
        num == 0 ==> lerp(from, to, num, den) == from,
        num == den ==> lerp(from, to, num, den) == to,
{
    let d = to - from;
    let q = (d * num) / den;
    assert(den * q <= d * num < den * q + den) by (nonlinear_arith)
        requires
            q == (d * num) / den,
            0 < den,
    ;
    if d >= 0 {
        assert(0 <= q <= d) by (nonlinear_arith)
            requires
                den * q <= d * num < den * q + den,
                0 <= num <= den,
                0 < den,
                d >= 0,
        ;
    } else {
        assert(d <= q <= 0) by (nonlinear_arith)
            requires
                den * q <= d * num < den * q + den,
                0 <= num <= den,
                0 < den,
                d < 0,
        ;
    }
    if num == 0 {
        assert(d * num == 0) by (nonlinear_arith)
            requires
                num == 0,
        ;
    }
    if num == den {
        assert(q == d) by (nonlinear_arith)
            requires
                den * q <= d * den < den * q + den,
                0 < den,
        ;
    }
}

/// Division that rounds toward zero.
pub fn quotient_raw(n: i64, d: i64) -> (q: i64)
    requires
        d != 0,
        n > i64::MIN,
        d > i64::MIN,
    ensures
        q == quotient(n as int, d as int),
{
    if d > 0 {
        n / d
    } else {
        (-n) / (-d)
    }
}

/// Division that rounds toward negative infinity.
pub fn floor_div(n: i128, d: i128) -> (q: i128)
    requires
        0 < d,
        i128::MIN < n,
    ensures
        q == n as int / d as int,
{
    if n >= 0 {
        n / d
    } else {
        let m: i128 = -n;
        let t: i128 = m / d;
        assert(d * t <= m < d * t + d) by (nonlinear_arith)
            requires
                t == m as int / d as int,
                0 < d,
        ;
        assert(d * t >= 0 && t >= 0) by (nonlinear_arith)
            requires
                t == m as int / d as int,
                0 < d,
                0 <= m,
        ;
        if t * d == m {
            assert(n as int / d as int == -t) by (nonlinear_arith)
                requires
                    t * d == -n,
                    0 < d,
            ;
            -t
        } else {
            assert(n as int / d as int == -t - 1) by (nonlinear_arith)
                requires
                    d * t < -n < d * t + d,
                    0 < d,
            ;
            -t - 1
        }
    }
}

/// Linear interpolation on raw values: `from` at `num == 0`, `to` at
/// `num == den`, rounded down in between.
pub fn lerp_raw(from: i64, to: i64, num: i64, den: i64) -> (r: i64)
    requires
        0 <= num <= den,
        0 < den,
        -0x4000_0000_0000_0000 <= from <= 0x4000_0000_0000_0000,
        -0x4000_0000_0000_0000 <= to <= 0x4000_0000_0000_0000,
    ensures
        r == lerp(from as int, to as int, num as int, den as int),
{
    let d: i128 = to as i128 - from as i128;
    assert(-0x4000_0000_0000_0000_0000_0000_0000_0000 < d * num
        < 0x4000_0000_0000_0000_0000_0000_0000_0000) by (nonlinear_arith)
        requires
            -0x8000_0000_0000_0000 <= d <= 0x8000_0000_0000_0000,
            0 <= num <= 0x7fff_ffff_ffff_ffff,
    ;
    let q: i128 = floor_div(d * (num as i128), den as i128);
    proof {
        lemma_lerp_bounds(from as int, to as int, num as int, den as int);
    }
    (from as i128 + q) as i64
}

/// The integer square root of `n`.
pub fn isqrt_u128(n: u128) -> (r: u64)
    ensures
        is_isqrt(n as int, r as int),
        r == isqrt(n as int),
{
    let mut lo: u128 = 0;
    let mut hi: u128 = 0x1_0000_0000_0000_0000;
    assert(n < hi * hi) by (nonlinear_arith)
        requires
            hi == 0x1_0000_0000_0000_0000,
            n <= 0xffff_ffff_ffff_ffff_ffff_ffff_ffff_ffff,
    ;
    while hi - lo > 1
        invariant
            lo < hi <= 0x1_0000_0000_0000_0000,
            lo * lo <= n < hi * hi,
        decreases hi - lo,
    {
        let mid: u128 = lo + (hi - lo) / 2;
        assert(mid * mid <= 0xffff_ffff_ffff_ffff_ffff_ffff_ffff_ffff) by (nonlinear_arith)
            requires
                mid <= 0xffff_ffff_ffff_ffff,
        ;
        if mid * mid <= n {
            lo = mid;
        } else {
            hi = mid;
        }
    }
    proof {
        lemma_isqrt_is(n as int, lo as int);
    }
    lo as u64
}

} // verus!
