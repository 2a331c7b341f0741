//! Fixed-point scalar arithmetic.
//!
//! A scalar is an `i64` counting units of `1 / FX_ONE` (16 fractional
//! bits). Every operation is total: results are saturated into
//! `[FX_MIN, FX_MAX]`, so the two extremes behave as consistent signed
//! infinities (division by zero yields the signed extreme, and a product
//! with an extreme keeps its sign). Multiplication, division and square
//! root round toward zero. Each executable operation returns exactly the
//! value of its spec-level counterpart.

use vstd::prelude::*;

verus! {

/// Number of raw units in 1.0.
pub const FX_ONE: i64 = 65536;

/// Raw value of 0.5.
pub const FX_HALF: i64 = 32768;

/// Raw value of 2.0.
pub const FX_TWO: i64 = 131072;

/// Largest scalar; saturating arithmetic treats it as positive infinity.
pub const FX_MAX: i64 = i64::MAX;

/// Smallest scalar; the negation of `FX_MAX`, so negation is total.
pub const FX_MIN: i64 = -i64::MAX;

/// Magnitude of an unbounded integer.
pub open spec fn mag(x: int) -> int {
    if x >= 0 {
        x
    } else {
        -x
    }
}

/// Clamp an unbounded integer into the representable scalar range.
pub open spec fn fx_sat(x: int) -> int {
    if x > FX_MAX as int {
        FX_MAX as int
    } else if x < FX_MIN as int {
        FX_MIN as int
    } else {
        x
    }
}

/// Quotient rounded toward zero (for `d != 0`).
pub open spec fn div_tz(p: int, d: int) -> int
    recommends
        d != 0,
{
    if (p >= 0) == (d >= 0) {
        mag(p) / mag(d)
    } else {
        -(mag(p) / mag(d))
    }
}

pub open spec fn fx_add_v(a: int, b: int) -> int {
    fx_sat(a + b)
}

pub open spec fn fx_sub_v(a: int, b: int) -> int {
    fx_sat(a - b)
}

pub open spec fn fx_neg_v(a: int) -> int {
    fx_sat(-a)
}

pub open spec fn fx_mul_v(a: int, b: int) -> int {
    fx_sat(div_tz(a * b, FX_ONE as int))
}

pub open spec fn fx_div_v(a: int, b: int) -> int {
    if b == 0 {
        if a >= 0 {
            FX_MAX as int
        } else {
            FX_MIN as int
        }
    } else {
        fx_sat(div_tz(a * FX_ONE, b))
    }
}

pub open spec fn fx_min_v(a: int, b: int) -> int {
    if a <= b {
        a
    } else {
        b
    }
}

pub open spec fn fx_max_v(a: int, b: int) -> int {
    if a >= b {
        a
    } else {
        b
    }
}

pub open spec fn fx_abs_v(a: int) -> int {
    fx_sat(mag(a))
}

/// `r` is the integer square root of `n`.
pub open spec fn is_isqrt(n: int, r: int) -> bool {
    0 <= r && r * r <= n && n < (r + 1) * (r + 1)
}

pub open spec fn isqrt_v(n: int) -> int {
    choose|r: int| is_isqrt(n, r)
}

/// Square root of a scalar: zero on non-positive input, else the
/// truncated root (`isqrt` of the raw value rescaled by `FX_ONE`).
pub open spec fn fx_sqrt_v(a: int) -> int {
    if a <= 0 {
        0
    } else {
        isqrt_v(a * FX_ONE)
    }
}

/// The integer square root is unique, so any witness determines `isqrt_v`.
pub proof fn lemma_isqrt_unique(n: int, r: int)
    requires
        is_isqrt(n, r),
    ensures
        isqrt_v(n) == r,
{
    let w = isqrt_v(n);
    assert(is_isqrt(n, w)) by {
        assert(exists|x: int| is_isqrt(n, x));
    }
    assert(w == r) by (nonlinear_arith)
        requires
            0 <= w,
            w * w <= n,
            n < (w + 1) * (w + 1),
            0 <= r,
            r * r <= n,
            n < (r + 1) * (r + 1);
}

/// Every nonnegative integer has an integer square root.
pub proof fn lemma_isqrt_exists(n: int)
    requires
        n >= 0,
    ensures
        exists|r: int| is_isqrt(n, r),
    decreases n,
{
    if n == 0 {
        assert(is_isqrt(0, 0));
    } else {
        let m = n - 1;
        lemma_isqrt_exists(m);
        let r = choose|r: int| is_isqrt(m, r);
        if n < (r + 1) * (r + 1) {
            assert(is_isqrt(n, r));
        } else {
            assert((r + 2) * (r + 2) > n) by (nonlinear_arith)
                requires
                    r >= 0,
                    n - 1 < (r + 1) * (r + 1),
                    n >= (r + 1) * (r + 1);
            assert(is_isqrt(n, r + 1));
        }
    }
}

/// `isqrt_v` of a nonnegative number is its actual root.
pub proof fn lemma_isqrt_v_props(n: int)
    requires
        n >= 0,
    ensures
        is_isqrt(n, isqrt_v(n)),
        isqrt_v(n) >= 0,
{
    lemma_isqrt_exists(n);
}

/// The square root of any scalar is nonnegative.
pub proof fn lemma_fx_sqrt_v_nonneg(a: int)
    ensures
        fx_sqrt_v(a) >= 0,
{
    if a > 0 {
        lemma_isqrt_v_props(a * FX_ONE);
    }
}

/// Truncating division is monotone in the dividend (positive divisor).
pub proof fn lemma_div_tz_monotone(p1: int, p2: int, d: int)
    requires
        d > 0,
        p1 <= p2,
    ensures
        div_tz(p1, d) <= div_tz(p2, d),
{
    if 0 <= p1 {
        vstd::arithmetic::div_mod::lemma_div_is_ordered(p1, p2, d);
    } else if p2 < 0 {
        vstd::arithmetic::div_mod::lemma_div_is_ordered(-p2, -p1, d);
    } else {
        vstd::arithmetic::div_mod::lemma_div_pos_is_pos(-p1, d);
        vstd::arithmetic::div_mod::lemma_div_pos_is_pos(p2, d);
    }
}

/// Scalar division is monotone in the numerator for a nonnegative
/// denominator (a zero denominator maps signs to the two extremes).
pub proof fn lemma_fx_div_v_monotone(n1: int, n2: int, d: int)
    requires
        n1 <= n2,
        d >= 0,
    ensures
        fx_div_v(n1, d) <= fx_div_v(n2, d),
{
    if d > 0 {
        lemma_div_tz_monotone(n1 * FX_ONE, n2 * FX_ONE, d);
        assert(n1 * FX_ONE <= n2 * FX_ONE) by (nonlinear_arith)
            requires
                n1 <= n2,
                FX_ONE == 65536;
    }
}

/// Multiplying by one only clamps: `x * 1 == sat(x)`.
pub proof fn lemma_fx_mul_one(x: int)
    ensures
        fx_mul_v(x, FX_ONE as int) == fx_sat(x),
{
    assert(mag(x * 65536) == mag(x) * 65536) by (nonlinear_arith)
        requires
            mag(x) == (if x >= 0 { x } else { -x }),
            mag(x * 65536) == (if x * 65536 >= 0 { x * 65536 } else { -(x * 65536) });
    assert(mag(x) * 65536 / 65536 == mag(x)) by (nonlinear_arith)
        requires
            mag(x) >= 0;
    assert(x * 65536 >= 0 <==> x >= 0) by (nonlinear_arith);
}

/// Multiplication is odd in its second argument, for an in-range second
/// argument.
pub proof fn lemma_fx_mul_neg_right(a: int, b: int)
    requires
        FX_MIN as int <= b <= FX_MAX as int,
    ensures
        fx_mul_v(a, fx_neg_v(b)) == -fx_mul_v(a, b),
{
    assert(a * (-b) == -(a * b)) by (nonlinear_arith);
    assert(mag(-(a * b)) == mag(a * b));
    if a * b == 0 {
        assert(mag(a * b) == 0);
        assert(mag(a * b) / (FX_ONE as int) == 0) by (nonlinear_arith)
            requires
                mag(a * b) == 0,
                FX_ONE == 65536;
    }
}

/// Every division result lies in the representable range.
pub proof fn lemma_fx_div_v_bounds(a: int, b: int)
    ensures
        FX_MIN as int <= fx_div_v(a, b) <= FX_MAX as int,
{
}

/// One divided by one is one.
pub proof fn lemma_fx_div_one_one()
    ensures
        fx_div_v(FX_ONE as int, FX_ONE as int) == FX_ONE as int,
{
    assert(65536int * 65536int == 4294967296int);
    assert(4294967296int / 65536int == 65536int) by (nonlinear_arith);
}

/// Magnitude of a scalar, widened so that `-i64::MAX..=i64::MAX` and
/// `i64::MIN` are all handled.
fn fx_mag_u128(a: i64) -> (r: u128)
    ensures
        r as int == mag(a as int),
{
    if a < 0 {
        (-(a as i128)) as u128
    } else {
        a as u128
    }
}

/// Saturate a magnitude-and-sign pair back into a scalar.
fn fx_sat_signed(q: u128, neg: bool) -> (r: i64)
    ensures
        r as int == fx_sat(
            if neg {
                -(q as int)
            } else {
                q as int
            },
        ),
{
    if neg {
        if q >= (FX_MAX as u128) {
            FX_MIN
        } else {
            -(q as i64)
        }
    } else {
        if q >= (FX_MAX as u128) {
            FX_MAX
        } else {
            q as i64
        }
    }
}

pub fn fx_add(a: i64, b: i64) -> (r: i64)
    ensures
        r as int == fx_add_v(a as int, b as int),
{
    let s: i128 = (a as i128) + (b as i128);
    if s > (FX_MAX as i128) {
        FX_MAX
    } else if s < (FX_MIN as i128) {
        FX_MIN
    } else {
        s as i64
    }
}

pub fn fx_sub(a: i64, b: i64) -> (r: i64)
    ensures
        r as int == fx_sub_v(a as int, b as int),
{
    let s: i128 = (a as i128) - (b as i128);
    if s > (FX_MAX as i128) {
        FX_MAX
    } else if s < (FX_MIN as i128) {
        FX_MIN
    } else {
        s as i64
    }
}

pub fn fx_neg(a: i64) -> (r: i64)
    ensures
        r as int == fx_neg_v(a as int),
{
    if a == i64::MIN {
        FX_MAX
    } else {
        -a
    }
}

pub fn fx_abs(a: i64) -> (r: i64)
    ensures
        r as int == fx_abs_v(a as int),
{
    if a == i64::MIN {
        FX_MAX
    } else if a < 0 {
        -a
    } else {
        a
    }
}

pub fn fx_min(a: i64, b: i64) -> (r: i64)
    ensures
        r as int == fx_min_v(a as int, b as int),
{
    if a <= b {
        a
    } else {
        b
    }
}

pub fn fx_max(a: i64, b: i64) -> (r: i64)
    ensures
        r as int == fx_max_v(a as int, b as int),
{
    if a >= b {
        a
    } else {
        b
    }
}

pub fn fx_mul(a: i64, b: i64) -> (r: i64)
    ensures
        r as int == fx_mul_v(a as int, b as int),
{
    let ma = fx_mag_u128(a);
    let mb = fx_mag_u128(b);
    proof {
        assert(ma * mb <= 0x8000000000000000u128 * 0x8000000000000000u128) by (nonlinear_arith)
            requires
                ma <= 0x8000000000000000u128,
                mb <= 0x8000000000000000u128;
    }
    let p = ma * mb;
    let q = p / (FX_ONE as u128);
    let neg = (a < 0) != (b < 0);
    proof {
        let pa = a as int;
        let pb = b as int;
        assert(mag(pa) * mag(pb) == mag(pa * pb)) by (nonlinear_arith)
            requires
                mag(pa) == (if pa >= 0 { pa } else { -pa }),
                mag(pb) == (if pb >= 0 { pb } else { -pb }),
                mag(pa * pb) == (if pa * pb >= 0 { pa * pb } else { -(pa * pb) });
        assert(pa * pb < 0 ==> ((pa < 0) != (pb < 0))) by (nonlinear_arith);
        assert(pa * pb > 0 ==> ((pa < 0) == (pb < 0))) by (nonlinear_arith);
        assert(q as int == mag(pa * pb) / (FX_ONE as int));
        assert(pa * pb == 0 ==> q == 0) by {
            assert(pa * pb == 0 ==> mag(pa * pb) == 0);
        }
    }
    fx_sat_signed(q, neg)
}

pub fn fx_div(a: i64, b: i64) -> (r: i64)
    ensures
        r as int == fx_div_v(a as int, b as int),
{
    if b == 0 {
        if a >= 0 {
            FX_MAX
        } else {
            FX_MIN
        }
    } else {
        let ma = fx_mag_u128(a);
        let mb = fx_mag_u128(b);
        proof {
            assert(ma * (FX_ONE as u128) <= 0x8000000000000000u128 * 65536u128)
                by (nonlinear_arith)
                requires
                    ma <= 0x8000000000000000u128,
                    FX_ONE == 65536;
        }
        let p = ma * (FX_ONE as u128);
        let q = p / mb;
        let neg = (a < 0) != (b < 0);
        proof {
            let pa = a as int;
            let pb = b as int;
            assert(mag(pa * FX_ONE) == mag(pa) * FX_ONE) by (nonlinear_arith)
                requires
                    mag(pa) == (if pa >= 0 { pa } else { -pa }),
                    mag(pa * FX_ONE) == (if pa * FX_ONE >= 0 {
                        pa * FX_ONE as int
                    } else {
                        -(pa * FX_ONE)
                    });
            assert(q as int == mag(pa * FX_ONE) / mag(pb));
            assert(pa * FX_ONE < 0 <==> pa < 0);
            assert(pa == 0 ==> q == 0) by {
                assert(pa == 0 ==> mag(pa) == 0);
                assert(mag(pb) > 0);
            }
        }
        fx_sat_signed(q, neg)
    }
}

/// Binary-search integer square root for raw values up to `2^80`.
pub fn isqrt_u(n: u128) -> (r: u128)
    requires
        n < 0x100000000000000000000u128,
    ensures
        is_isqrt(n as int, r as int),
{
    let mut lo: u128 = 0;
    let mut hi: u128 = 0x10000000000;
    proof {
        assert(0x10000000000int * 0x10000000000int == 0x100000000000000000000int);
    }
    while lo + 1 < hi
        invariant
            lo < hi <= 0x10000000000u128,
            (lo as int) * (lo as int) <= n as int,
            (n as int) < (hi as int) * (hi as int),
        decreases hi - lo,
    {
        let mid = lo + (hi - lo) / 2;
        proof {
            assert(lo < mid < hi);
            assert((mid as int) * (mid as int) < 0x100000000000000000000int) by (nonlinear_arith)
                requires
                    0 <= (mid as int) < 0x10000000000int;
        }
        if mid * mid <= n {
            lo = mid;
        } else {
            hi = mid;
        }
    }
    lo
}

pub fn fx_sqrt(a: i64) -> (r: i64)
    ensures
        r as int == fx_sqrt_v(a as int),
{
    if a <= 0 {
        0
    } else {
        proof {
            assert((a as u128) * (FX_ONE as u128) < 0x100000000000000000000u128)
                by (nonlinear_arith)
                requires
                    a as u128 <= 0x8000000000000000u128,
                    FX_ONE == 65536;
        }
        let n = (a as u128) * (FX_ONE as u128);
        let s = isqrt_u(n);
        proof {
            lemma_isqrt_unique(n as int, s as int);
            assert(s as int <= 0x10000000000int) by (nonlinear_arith)
                requires
                    0 <= (s as int),
                    (s as int) * (s as int) <= (n as int),
                    (n as int) < 0x100000000000000000000int;
        }
        s as i64
    }
}

/// Whole number `n` as a scalar (`n * FX_ONE`, saturated).
pub open spec fn fx_of_v(n: int) -> int {
    fx_sat(n * FX_ONE)
}

pub fn fx_of(n: i64) -> (r: i64)
    ensures
        r as int == fx_of_v(n as int),
{
    proof {
        assert(-0x80000000000000000000i128 <= (n as i128) * (FX_ONE as i128)
            <= 0x80000000000000000000i128) by (nonlinear_arith)
            requires
                -0x8000000000000000i128 <= n as i128 <= 0x8000000000000000i128,
                FX_ONE == 65536;
    }
    let s: i128 = (n as i128) * (FX_ONE as i128);
    if s > (FX_MAX as i128) {
        FX_MAX
    } else if s < (FX_MIN as i128) {
        FX_MIN
    } else {
        s as i64
    }
}

} // verus!
