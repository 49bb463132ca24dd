//! Fixed-point scalar arithmetic.
//!
//! A scalar is an `i64` counting units of `1 / SCALE`. All helpers here are
//! exact integer functions; rounding is always toward negative infinity
//! (floor), which is what the spec-level `/` on `int` computes for a positive
//! divisor.

use vstd::prelude::*;

verus! {

/// Number of fixed-point steps per world unit.
pub const SCALE: i64 = 1024;

/// Largest magnitude a scalar takes part in arithmetic with; chosen so that
/// products with `SCALE * SCALE` still fit in `i128` with a wide margin, and
/// so that the out-of-field sentinel (`FAR`) exceeds 1e12 world units.
pub const FAR: i64 = 0x4000000000000;

/// Floor division: the unique `q` with `q * b <= a < (q + 1) * b`.
///
/// The spec-level `/` on `int` is Euclidean, which equals floor division for
/// a positive divisor, so the contract can state the result directly.
pub fn div_floor(a: i64, b: i64) -> (q: i64)
    requires
        b > 0,
        a > i64::MIN,
    ensures
        q == a as int / b as int,
{
    if a >= 0 {
        a / b
    } else {
        let n = -a;
        let q0 = n / b;
        let m = n % b;
        proof {
            vstd::arithmetic::div_mod::lemma_fundamental_div_mod(n as int, b as int);
        }
        assert(n == b * q0 + m && 0 <= m < b);
        if m == 0 {
            proof {
                assert(a as int == (-(q0 as int)) * (b as int) + 0) by (nonlinear_arith)
                    requires a as int == -(b as int * q0 as int);
                vstd::arithmetic::div_mod::lemma_fundamental_div_mod_converse(
                    a as int, b as int, -(q0 as int), 0);
            }
            -q0
        } else {
            proof {
                assert(a as int == (-(q0 as int) - 1) * (b as int) + (b as int - m as int))
                    by (nonlinear_arith)
                    requires a as int == -(b as int * q0 as int + m as int);
                vstd::arithmetic::div_mod::lemma_fundamental_div_mod_converse(
                    a as int, b as int, -(q0 as int) - 1, b - m);
            }
            -q0 - 1
        }
    }
}

/// Floor division on `i128`, for wide intermediate products.
pub fn div_floor_i128(a: i128, b: i128) -> (q: i128)
    requires
        b > 0,
        a > i128::MIN,
    ensures
        q == a as int / b as int,
{
    if a >= 0 {
        a / b
    } else {
        let n = -a;
        let q0 = n / b;
        let m = n % b;
        proof {
            vstd::arithmetic::div_mod::lemma_fundamental_div_mod(n as int, b as int);
        }
        assert(n == b * q0 + m && 0 <= m < b);
        if m == 0 {
            proof {
                assert(a as int == (-(q0 as int)) * (b as int) + 0) by (nonlinear_arith)
                    requires a as int == -(b as int * q0 as int);
                vstd::arithmetic::div_mod::lemma_fundamental_div_mod_converse(
                    a as int, b as int, -(q0 as int), 0);
            }
            -q0
        } else {
            proof {
                assert(a as int == (-(q0 as int) - 1) * (b as int) + (b as int - m as int))
                    by (nonlinear_arith)
                    requires a as int == -(b as int * q0 as int + m as int);
                vstd::arithmetic::div_mod::lemma_fundamental_div_mod_converse(
                    a as int, b as int, -(q0 as int) - 1, b - m);
            }
            -q0 - 1
        }
    }
}

/// Holds when `r` is the floor of the square root of `n`.
pub open spec fn is_sqrt(n: int, r: int) -> bool {
    0 <= r && r * r <= n && n < (r + 1) * (r + 1)
}

/// The floor of the square root of `n` (meaningful for `n >= 0`).
pub open spec fn sqrt_floor(n: int) -> int {
    choose|r: int| is_sqrt(n, r)
}

/// The floor square root is unique, so any witness pins `sqrt_floor` down.
pub proof fn lemma_sqrt_floor_unique(n: int, r: int)
    requires
        is_sqrt(n, r),
    ensures
        sqrt_floor(n) == r,
{
    assert(exists|s: int| is_sqrt(n, s)) by {
        assert(is_sqrt(n, r));
    }
    let s = choose|s: int| is_sqrt(n, s);
    assert(s == r) by (nonlinear_arith)
        requires
            is_sqrt(n, r),
            is_sqrt(n, s);
}

/// Every non-negative integer has a floor square root, so `sqrt_floor` is a
/// genuine witness wherever it appears in a spec.
pub proof fn lemma_sqrt_exists(n: int)
    requires
        n >= 0,
    ensures
        is_sqrt(n, sqrt_floor(n)),
    decreases n,
{
    if n == 0 {
        assert(is_sqrt(0, 0));
        lemma_sqrt_floor_unique(0, 0);
    } else {
        lemma_sqrt_exists(n - 1);
        let r = sqrt_floor(n - 1);
        if n < (r + 1) * (r + 1) {
            assert(is_sqrt(n, r));
            lemma_sqrt_floor_unique(n, r);
        } else {
            assert(n == (r + 1) * (r + 1));
            assert((r + 1) * (r + 1) < (r + 2) * (r + 2)) by (nonlinear_arith)
                requires
                    r >= 0;
            assert(is_sqrt(n, r + 1));
            lemma_sqrt_floor_unique(n, r + 1);
        }
    }
}

/// Integer square root: the unique `r` with `r * r <= x < (r + 1) * (r + 1)`.
pub fn isqrt(x: u128) -> (r: u64)
    ensures
        r * r <= x,
        (r + 1) * (r + 1) > x,
        r == sqrt_floor(x as int),
{
    let mut lo: u64 = 0;
    let mut hi: u128 = 0x10000000000000000;
    while (lo as u128) + 1 < hi
        invariant
            (lo as u128) < hi <= 0x10000000000000000,
            lo * lo <= x,
            hi * hi > x,
        decreases hi - lo as u128,
    {
        let mid: u128 = (lo as u128) + (hi - lo as u128) / 2;
        assert((lo as u128) < mid < hi);
        assert(mid * mid < 0x100000000000000000000000000000000) by (nonlinear_arith)
            requires mid < 0x10000000000000000u128;
        if mid * mid <= x {
            lo = mid as u64;
        } else {
            hi = mid;
        }
    }
    proof {
        lemma_sqrt_floor_unique(x as int, lo as int);
    }
    lo
}

/// Fixed-point reciprocal of Euler's number: `floor(SCALE / e)`.
pub const INV_E: i64 = 377;

/// Four-term alternating series for `exp(-r / SCALE) * SCALE` on a
/// fractional argument, clamped into `[0, SCALE]`.
pub open spec fn spec_exp_frac(r: int) -> int {
    let s = SCALE as int;
    let t2 = r * r / (2 * s);
    let t3 = r * r * r / (6 * s * s);
    let t4 = r * r * r * r / (24 * s * s * s);
    let v = s - r + t2 - t3 + t4;
    if v < 0 {
        0
    } else if v > s {
        s
    } else {
        v
    }
}

/// `k` decay steps by the ratio `INV_E / SCALE`.
pub open spec fn spec_decay(v: int, k: nat) -> int
    decreases k,
{
    if k == 0 {
        v
    } else {
        spec_decay(v * (INV_E as int) / (SCALE as int), (k - 1) as nat)
    }
}

/// `exp(-x / SCALE) * SCALE` in the library's fixed-point approximation:
/// the fractional series decayed once per whole unit of `x`, and zero from
/// 64 units on (where the true value is far below one fixed-point step).
pub open spec fn spec_exp_neg(x: int) -> int {
    let s = SCALE as int;
    if x >= 64 * s {
        0
    } else {
        spec_decay(spec_exp_frac(x % s), (x / s) as nat)
    }
}

/// Exponential decay, `exp(-x / SCALE) * SCALE` rounded to the fixed-point
/// grid; exactly [`spec_exp_neg`], never outside `[0, SCALE]`, and `SCALE`
/// exactly at zero.
pub fn exp_neg(x: i64) -> (r: i64)
    requires
        0 <= x,
    ensures
        r == spec_exp_neg(x as int),
        0 <= r <= SCALE,
        x == 0 ==> r == SCALE,
{
    if x >= 64 * SCALE {
        return 0;
    }
    let k = x / SCALE;
    let rem = x % SCALE;
    proof {
        lemma_mul_bounds(rem as int, rem as int, 1024, 1024);
        lemma_mul_bounds((rem as int) * (rem as int), rem as int, 0x100000, 1024);
        lemma_mul_bounds((rem as int) * (rem as int) * (rem as int), rem as int, 0x40000000, 1024);
        lemma_div_bound((rem as int) * (rem as int), 2 * SCALE as int, 0x100000);
        lemma_div_bound((rem as int) * (rem as int) * (rem as int), 6 * (SCALE as int) * (
        SCALE as int), 0x40000000);
        lemma_div_bound((rem as int) * (rem as int) * (rem as int) * (rem as int), 24 * (
        SCALE as int) * (SCALE as int) * (SCALE as int), 0x10000000000);
        vstd::arithmetic::div_mod::lemma_div_pos_is_pos((rem as int) * (rem as int), 2 * SCALE as int);
        vstd::arithmetic::div_mod::lemma_div_pos_is_pos((rem as int) * (rem as int) * (rem as int),
            6 * (SCALE as int) * (SCALE as int));
        vstd::arithmetic::div_mod::lemma_div_pos_is_pos(
            (rem as int) * (rem as int) * (rem as int) * (rem as int),
            24 * (SCALE as int) * (SCALE as int) * (SCALE as int));
    }
    let t2 = rem * rem / (2 * SCALE);
    let t3 = rem * rem * rem / (6 * SCALE * SCALE);
    let t4 = rem * rem * rem * rem / (24 * SCALE * SCALE * SCALE);
    let v0 = SCALE - rem + t2 - t3 + t4;
    let mut v = if v0 < 0 {
        0
    } else if v0 > SCALE {
        SCALE
    } else {
        v0
    };
    assert(v == spec_exp_frac(rem as int));
    proof {
        if rem == 0 {
            assert(t2 == 0 && t3 == 0 && t4 == 0) by (nonlinear_arith)
                requires
                    rem == 0,
                    t2 == (rem as int) * (rem as int) / (2 * (SCALE as int)),
                    t3 == (rem as int) * (rem as int) * (rem as int) / (6 * (SCALE as int) * (
                    SCALE as int)),
                    t4 == (rem as int) * (rem as int) * (rem as int) * (rem as int) / (24 * (
                    SCALE as int) * (SCALE as int) * (SCALE as int));
        }
    }
    let mut i = k;
    while i > 0
        invariant
            0 <= v <= SCALE,
            0 <= i <= k,
            x == 0 ==> i == 0,
            x == 0 ==> v == SCALE,
            spec_decay(v as int, i as nat) == spec_decay(
                spec_exp_frac(rem as int),
                k as nat,
            ),
        decreases i,
    {
        proof {
            lemma_mul_bounds(v as int, INV_E as int, SCALE as int, INV_E as int);
            lemma_div_bound(v * INV_E, SCALE as int, INV_E as int);
            assert(spec_decay(v as int, i as nat) == spec_decay(
                (v as int) * (INV_E as int) / (SCALE as int),
                (i - 1) as nat,
            ));
        }
        v = v * INV_E / SCALE;
        i = i - 1;
    }
    v
}

/// A quotient with positive divisor `d` is within `m` whenever the dividend
/// is within `m * d`.
pub proof fn lemma_div_bound(a: int, d: int, m: int)
    requires
        d > 0,
        m >= 0,
        -(m * d) <= a <= m * d,
    ensures
        -m <= a / d <= m,
{
    vstd::arithmetic::div_mod::lemma_fundamental_div_mod(a, d);
    let q = a / d;
    assert(-m <= q <= m) by (nonlinear_arith)
        requires
            d > 0,
            m >= 0,
            -(m * d) <= a <= m * d,
            a == d * q + a % d,
            0 <= a % d < d;
}

/// Bound on a product from bounds on its factors.
pub proof fn lemma_mul_bounds(a: int, b: int, ma: int, mb: int)
    requires
        0 <= ma,
        0 <= mb,
        -ma <= a <= ma,
        -mb <= b <= mb,
    ensures
        -(ma * mb) <= a * b <= ma * mb,
{
    assert(-(ma * mb) <= a * b <= ma * mb) by (nonlinear_arith)
        requires
            0 <= ma,
            0 <= mb,
            -ma <= a <= ma,
            -mb <= b <= mb;
}

} // verus!
