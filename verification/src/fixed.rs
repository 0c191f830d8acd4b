//! Fixed-point scalar arithmetic.
//!
//! A scalar is an `i64` holding a multiple of `1/SCALE` of a world unit.
//! `SCALE` is divisible by 60, so the standard simulation timestep of one
//! sixtieth of a second is represented exactly.

use vstd::prelude::*;

verus! {

/// Raw units per world unit.
pub const SCALE: i64 = 60000;

/// Magnitude bound, in raw units, for well-formed coordinates, sizes and
/// configuration scalars.
pub const LIM: i64 = 1_000_000_000;

pub open spec fn abs_i(a: int) -> int {
    if a < 0 { -a } else { a }
}

/// Division rounding toward zero, the behaviour of Rust's `/` on machine
/// integers, stated over mathematical integers for a positive divisor.
pub open spec fn div_t(a: int, b: int) -> int
    recommends
        b > 0,
{
    if a >= 0 { a / b } else { -((-a) / b) }
}

/// Fixed-point product of two scalars: `a * b / SCALE`, rounded toward zero.
pub open spec fn fmul_s(a: int, b: int) -> int {
    div_t(a * b, SCALE as int)
}

/// Truncating division on `i64`, matching `div_t`.
pub fn div_i64(a: i64, b: i64) -> (q: i64)
    requires
        b > 0,
        a > i64::MIN,
    ensures
        q == div_t(a as int, b as int),
{
    if a >= 0 {
        ((a as u64) / (b as u64)) as i64
    } else {
        let m: u64 = ((-a) as u64) / (b as u64);
        assert(m <= (-a) as u64) by {
            assert((-a) as int / b as int <= (-a) as int) by (nonlinear_arith)
                requires b as int > 0 && (-a) as int >= 0;
        }
        -(m as i64)
    }
}

/// Truncating division on `i128`, matching `div_t`.
pub fn div_i128(a: i128, b: i128) -> (q: i128)
    requires
        b > 0,
        a > i128::MIN,
    ensures
        q == div_t(a as int, b as int),
{
    if a >= 0 {
        ((a as u128) / (b as u128)) as i128
    } else {
        let m: u128 = ((-a) as u128) / (b as u128);
        assert(m <= (-a) as u128) by {
            assert((-a) as int / b as int <= (-a) as int) by (nonlinear_arith)
                requires b as int > 0 && (-a) as int >= 0;
        }
        -(m as i128)
    }
}

/// The magnitude of a truncated quotient is bounded by any `m` with
/// `|a| <= b * m`.
pub proof fn lemma_div_t_bound(a: int, b: int, m: int)
    requires
        b > 0,
        0 <= m,
        abs_i(a) <= b * m,
    ensures
        abs_i(div_t(a, b)) <= m,
{
    assert(abs_i(a) / b <= m) by (nonlinear_arith)
        requires b > 0 && 0 <= m && abs_i(a) <= b * m && abs_i(a) >= 0;
}

/// Truncation never grows the magnitude: `|div_t(a, b)| * b <= |a|`.
pub proof fn lemma_div_t_mul_le(a: int, b: int)
    requires
        b > 0,
    ensures
        abs_i(div_t(a, b)) * b <= abs_i(a),
{
    assert((abs_i(a) / b) * b <= abs_i(a)) by (nonlinear_arith)
        requires b > 0 && abs_i(a) >= 0;
}

/// The magnitude of a fixed-point product is bounded by the product of the
/// factors' bounds, up to the scale divisor.
pub proof fn lemma_fmul_s_bound(a: int, b: int, ma: int, mb: int)
    requires
        abs_i(a) <= ma,
        abs_i(b) <= mb,
    ensures
        abs_i(fmul_s(a, b)) * SCALE <= ma * mb,
{
    assert(abs_i(a * b) <= ma * mb) by (nonlinear_arith)
        requires abs_i(a) <= ma && abs_i(b) <= mb;
    lemma_div_t_mul_le(a * b, SCALE as int);
}

/// For a non-negative numerator, the quotient times the divisor reaches to
/// within one divisor of the numerator.
pub proof fn lemma_div_t_lower(a: int, b: int)
    requires
        a >= 0,
        b > 0,
    ensures
        0 <= div_t(a, b),
        div_t(a, b) * b <= a,
        div_t(a, b) * b + b > a,
{
    vstd::arithmetic::div_mod::lemma_fundamental_div_mod(a, b);
    assert(div_t(a, b) == a / b);
    assert(a == b * (a / b) + a % b);
    assert((a / b) * b == b * (a / b)) by (nonlinear_arith);
}

/// `r` is the integer square root of `n`, rounded down.
pub open spec fn is_sqrt(n: int, r: int) -> bool {
    0 <= r && r * r <= n && n < (r + 1) * (r + 1)
}

/// The integer square root of a non-negative `n`, rounded down.
pub closed spec fn sqrt_i(n: int) -> int {
    choose|r: int| is_sqrt(n, r)
}

/// Any witness of `is_sqrt` is the value of `sqrt_i`.
pub proof fn lemma_sqrt_unique(n: int, r: int)
    requires
        is_sqrt(n, r),
    ensures
        sqrt_i(n) == r,
        is_sqrt(n, sqrt_i(n)),
{
    let c = choose|c: int| is_sqrt(n, c);
    assert(is_sqrt(n, c));
    if c < r {
        assert((c + 1) * (c + 1) <= r * r) by (nonlinear_arith)
            requires 0 <= c && c < r;
        assert(false);
    }
    if r < c {
        assert((r + 1) * (r + 1) <= c * c) by (nonlinear_arith)
            requires 0 <= r && r < c;
        assert(false);
    }
}

/// `sqrt_i` is a genuine integer square root for every non-negative input.
pub proof fn lemma_sqrt_exists(n: int)
    requires
        n >= 0,
    ensures
        is_sqrt(n, sqrt_i(n)),
    decreases n,
{
    if n == 0 {
        assert(is_sqrt(0, 0)) by (nonlinear_arith);
        lemma_sqrt_unique(0, 0);
    } else {
        lemma_sqrt_exists(n - 1);
        let p = sqrt_i(n - 1);
        if n < (p + 1) * (p + 1) {
            assert(is_sqrt(n, p));
            lemma_sqrt_unique(n, p);
        } else {
            assert(n == (p + 1) * (p + 1));
            assert(is_sqrt(n, p + 1)) by (nonlinear_arith)
                requires n == (p + 1) * (p + 1) && p >= 0;
            lemma_sqrt_unique(n, p + 1);
        }
    }
}

/// A component of a sum of squares is bounded by the root of the sum.
pub proof fn lemma_component_le_sqrt(a: int, n: int, r: int)
    requires
        is_sqrt(n, r),
        a * a <= n,
    ensures
        abs_i(a) <= r,
{
    if abs_i(a) > r {
        assert((r + 1) * (r + 1) <= abs_i(a) * abs_i(a)) by (nonlinear_arith)
            requires 0 <= r && r < abs_i(a);
        assert(abs_i(a) * abs_i(a) == a * a) by (nonlinear_arith);
        assert(false);
    }
}

/// Integer square root by binary search; the comparison goes through a
/// division so that no intermediate product can overflow.
pub fn isqrt_u128(n: u128) -> (r: u128)
    ensures
        is_sqrt(n as int, r as int),
        r as int == sqrt_i(n as int),
        r < 0x1_0000_0000_0000_0000,
{
    let mut lo: u128 = 0;
    let mut hi: u128 = 0x1_0000_0000_0000_0000;
    assert((0x1_0000_0000_0000_0000 as int) * (0x1_0000_0000_0000_0000 as int) > n as int);
    while lo + 1 < hi
        invariant
            lo < hi,
            hi <= 0x1_0000_0000_0000_0000,
            (lo as int) * (lo as int) <= n as int,
            (n as int) < (hi as int) * (hi as int),
        decreases hi - lo,
    {
        let mid: u128 = lo + (hi - lo) / 2;
        assert(lo < mid && mid < hi);
        if mid <= n / mid {
            proof {
                assert((mid as int) * (mid as int) <= n as int) by (nonlinear_arith)
                    requires
                        mid as int >= 1,
                        mid as int <= (n as int) / (mid as int),
                        n as int >= 0;
            }
            lo = mid;
        } else {
            proof {
                assert((n as int) < (mid as int) * (mid as int)) by (nonlinear_arith)
                    requires
                        mid as int >= 1,
                        mid as int > (n as int) / (mid as int),
                        n as int >= 0;
            }
            hi = mid;
        }
    }
    proof {
        lemma_sqrt_unique(n as int, lo as int);
    }
    lo
}

} // verus!
