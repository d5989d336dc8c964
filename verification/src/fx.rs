//! Fixed-point scalar arithmetic.
//!
//! A scalar is an `i64` holding a real value scaled by `FX_ONE` (2^16).
//! Every operation saturates at `±FX_MAX`, so the executable functions are
//! total; each one is proved equal to its specification mirror, which states
//! the exact truncated, saturated result.

use vstd::prelude::*;

verus! {

/// Number of fixed-point units per 1.0.
pub const FX_ONE: i64 = 65536;

/// Largest representable scalar magnitude; the range is symmetric so that
/// negation never overflows.
pub const FX_MAX: i64 = 0x7fff_ffff_ffff_ffff;

/// Saturate an unbounded integer into the representable scalar range.
pub open spec fn fx_clip(x: int) -> int {
    if x > FX_MAX as int {
        FX_MAX as int
    } else if x < -(FX_MAX as int) {
        -(FX_MAX as int)
    } else {
        x
    }
}

/// True when `x` is a representable scalar value.
pub open spec fn fx_in_range(x: int) -> bool {
    -(FX_MAX as int) <= x <= FX_MAX as int
}

/// Truncating (round toward zero) division; `d` must not be zero.
pub open spec fn tdiv(n: int, d: int) -> int {
    let q = (vstd::math::abs(n) as int) / (vstd::math::abs(d) as int);
    if (n >= 0) == (d >= 0) {
        q
    } else {
        -q
    }
}

/// Saturating addition.
pub open spec fn sadd(a: int, b: int) -> int {
    fx_clip(a + b)
}

/// Saturating subtraction.
pub open spec fn ssub(a: int, b: int) -> int {
    fx_clip(a - b)
}

/// Negation (exact: the range is symmetric).
pub open spec fn sneg(a: int) -> int {
    -a
}

/// Saturating fixed-point product: truncated `a * b / FX_ONE`.
pub open spec fn smul(a: int, b: int) -> int {
    fx_clip(tdiv(a * b, FX_ONE as int))
}

/// Saturating fixed-point quotient: truncated `a * FX_ONE / b`; division by
/// zero saturates to the signed extreme (zero for a zero numerator).
pub open spec fn sdiv(a: int, b: int) -> int {
    if b == 0 {
        if a > 0 {
            FX_MAX as int
        } else if a < 0 {
            -(FX_MAX as int)
        } else {
            0
        }
    } else {
        fx_clip(tdiv(a * FX_ONE, b))
    }
}

/// Integer square root, rounded down.
pub open spec fn sqrt_nat(x: nat) -> nat
    decreases x,
{
    if x == 0 {
        0
    } else {
        let r = 2 * sqrt_nat((x / 4) as nat);
        if (r + 1) * (r + 1) <= x {
            (r + 1) as nat
        } else {
            r
        }
    }
}

/// Fixed-point square root of a scalar; nonpositive inputs give zero.
pub open spec fn ssqrt(x: int) -> int {
    if x <= 0 {
        0
    } else {
        sqrt_nat((x * FX_ONE) as nat) as int
    }
}

/// Absolute value.
pub open spec fn sabs(a: int) -> int {
    if a >= 0 {
        a
    } else {
        -a
    }
}

pub open spec fn smin(a: int, b: int) -> int {
    if a <= b {
        a
    } else {
        b
    }
}

pub open spec fn smax(a: int, b: int) -> int {
    if a >= b {
        a
    } else {
        b
    }
}

/// Truncating division by a positive divisor agrees with Euclidean division
/// on nonnegative numerators.
pub proof fn lemma_tdiv_nonneg(n: int, d: int)
    requires
        n >= 0,
        d > 0,
    ensures
        tdiv(n, d) == n / d,
        0 <= tdiv(n, d) <= n,
{
    vstd::arithmetic::div_mod::lemma_div_pos_is_pos(n, d);
    vstd::arithmetic::div_mod::lemma_div_nonincreasing(n, d);
}

/// Truncating division by a positive divisor is monotone in the numerator.
pub proof fn lemma_tdiv_mono(n: int, m: int, d: int)
    requires
        n <= m,
        d > 0,
    ensures
        tdiv(n, d) <= tdiv(m, d),
{
    if n >= 0 {
        lemma_tdiv_nonneg(n, d);
        lemma_tdiv_nonneg(m, d);
        vstd::arithmetic::div_mod::lemma_div_is_ordered(n, m, d);
    } else if m < 0 {
        vstd::arithmetic::div_mod::lemma_div_is_ordered(-m, -n, d);
    } else {
        vstd::arithmetic::div_mod::lemma_div_pos_is_pos(-n, d);
        lemma_tdiv_nonneg(m, d);
    }
}

/// Scaling a nonnegative scalar by a factor in `[0, 1]` does not increase it.
pub proof fn lemma_smul_le_right(a: int, b: int)
    requires
        0 <= a <= FX_ONE as int,
        0 <= b,
    ensures
        0 <= smul(a, b) <= b,
{
    assert(0 <= a * b && a * b <= 65536 * b) by (nonlinear_arith)
        requires 0 <= a <= 65536 && 0 <= b;
    lemma_tdiv_nonneg(a * b, 65536);
    vstd::arithmetic::div_mod::lemma_div_is_ordered(a * b, 65536 * b, 65536);
    vstd::arithmetic::div_mod::lemma_div_multiples_vanish(b, 65536);
}

/// Scaling a nonnegative span by a factor below one stays within the span.
pub proof fn lemma_unit_scale_bounds(u: int, d: int)
    requires
        0 <= u < FX_ONE as int,
        0 <= d,
    ensures
        0 <= smul(u, d) <= d,
{
    lemma_smul_le_right(u, d);
}

/// Fixed-point multiplication by a nonnegative factor is monotone.
pub proof fn lemma_smul_mono(a1: int, a2: int, b: int)
    requires
        a1 <= a2,
        b >= 0,
    ensures
        smul(a1, b) <= smul(a2, b),
{
    assert(a1 * b <= a2 * b) by (nonlinear_arith)
        requires a1 <= a2 && b >= 0;
    lemma_tdiv_mono(a1 * b, a2 * b, 65536);
}

/// Fixed-point multiplication is monotone in its second argument when the
/// first is nonnegative, antitone when it is nonpositive.
pub proof fn lemma_smul_mono_right(a: int, b1: int, b2: int)
    requires
        b1 <= b2,
    ensures
        a >= 0 ==> smul(a, b1) <= smul(a, b2),
        a <= 0 ==> smul(a, b2) <= smul(a, b1),
{
    if a >= 0 {
        assert(a * b1 <= a * b2) by (nonlinear_arith)
            requires b1 <= b2 && a >= 0;
        lemma_tdiv_mono(a * b1, a * b2, 65536);
    }
    if a <= 0 {
        assert(a * b2 <= a * b1) by (nonlinear_arith)
            requires b1 <= b2 && a <= 0;
        lemma_tdiv_mono(a * b2, a * b1, 65536);
    }
}

/// Fixed-point division is monotone in the numerator for a nonnegative
/// divisor, antitone for a negative one.
pub proof fn lemma_sdiv_mono_num(a1: int, a2: int, b: int)
    requires
        a1 <= a2,
    ensures
        b >= 0 ==> sdiv(a1, b) <= sdiv(a2, b),
        b < 0 ==> sdiv(a2, b) <= sdiv(a1, b),
{
    if b == 0 {
    } else if b > 0 {
        assert(a1 * 65536 <= a2 * 65536) by (nonlinear_arith)
            requires a1 <= a2;
        lemma_tdiv_mono_den(a1 * 65536, a2 * 65536, b);
    } else {
        assert(a1 * 65536 <= a2 * 65536) by (nonlinear_arith)
            requires a1 <= a2;
        lemma_tdiv_mono_den(a1 * 65536, a2 * 65536, -b);
        assert(tdiv(a2 * 65536, b) == -tdiv(a2 * 65536, -b));
        assert(tdiv(a1 * 65536, b) == -tdiv(a1 * 65536, -b));
    }
}

/// Truncating division by any positive divisor is monotone.
proof fn lemma_tdiv_mono_den(n: int, m: int, d: int)
    requires
        n <= m,
        d > 0,
    ensures
        tdiv(n, d) <= tdiv(m, d),
{
    lemma_tdiv_mono(n, m, d);
}

/// Undoing a fixed-point scaling by division does not overshoot: if
/// `0 <= x <= delta * len` (in fixed point) then `x / len <= delta`.
pub proof fn lemma_sdiv_smul_le(delta: int, len: int, x: int)
    requires
        0 <= delta,
        0 <= len,
        0 <= x <= smul(delta, len),
    ensures
        0 <= sdiv(x, len) <= delta,
{
    if len == 0 {
        assert(delta * 0 == 0) by (nonlinear_arith);
        lemma_tdiv_nonneg(0, 65536);
        assert(smul(delta, len) == 0);
        assert(x == 0);
    } else {
        assert(delta * len >= 0) by (nonlinear_arith)
            requires delta >= 0 && len >= 0;
        lemma_tdiv_nonneg(delta * len, 65536);
        let q = (delta * len) / 65536;
        assert(smul(delta, len) <= q);
        vstd::arithmetic::div_mod::lemma_fundamental_div_mod(delta * len, 65536);
        assert(q * 65536 <= delta * len);
        assert(x * 65536 <= q * 65536) by (nonlinear_arith)
            requires x <= q;
        lemma_tdiv_nonneg(x * 65536, len);
        vstd::arithmetic::div_mod::lemma_div_is_ordered(x * 65536, delta * len, len);
        vstd::arithmetic::div_mod::lemma_div_multiples_vanish(delta, len);
        assert(len * delta == delta * len) by (nonlinear_arith);
    }
}

/// A fraction with numerator between zero and the denominator lies in
/// `[0, 1]`.
pub proof fn lemma_sdiv_frac(n: int, d: int)
    requires
        0 <= n <= d,
    ensures
        0 <= sdiv(n, d) <= FX_ONE as int,
{
    if d == 0 {
    } else {
        lemma_tdiv_nonneg(n * 65536, d);
        assert(n * 65536 <= d * 65536) by (nonlinear_arith)
            requires n <= d;
        vstd::arithmetic::div_mod::lemma_div_is_ordered(n * 65536, d * 65536, d);
        vstd::arithmetic::div_mod::lemma_div_multiples_vanish(65536, d);
        assert(d * 65536 == 65536 * d) by (nonlinear_arith);
    }
}

/// Multiplication by zero gives zero exactly.
pub proof fn lemma_smul_zero(a: int)
    ensures
        smul(a, 0) == 0,
        smul(0, a) == 0,
{
    assert(a * 0 == 0) by (nonlinear_arith);
    assert(0 * a == 0) by (nonlinear_arith);
    lemma_tdiv_nonneg(0, 65536);
}

/// The defining bracket of the integer square root.
pub proof fn lemma_sqrt_nat_bracket(x: nat)
    ensures
        sqrt_nat(x) * sqrt_nat(x) <= x,
        x < (sqrt_nat(x) + 1) * (sqrt_nat(x) + 1),
    decreases x,
{
    if x == 0 {
        assert(sqrt_nat(x) == 0);
        assert(x < (sqrt_nat(x) + 1) * (sqrt_nat(x) + 1)) by (nonlinear_arith)
            requires x == 0 && sqrt_nat(x) == 0;
    } else {
        let q = (x / 4) as nat;
        lemma_sqrt_nat_bracket(q);
        let r0 = sqrt_nat(q);
        let r = 2 * r0;
        assert(x == 4 * q + (x as int % 4) && 0 <= x as int % 4 < 4) by {
            vstd::arithmetic::div_mod::lemma_fundamental_div_mod(x as int, 4);
        }
        assert(4 * q <= x < 4 * q + 4);
        assert(r * r <= 4 * q) by (nonlinear_arith)
            requires r == 2 * r0 && r0 * r0 <= q;
        assert(4 * q + 4 <= (r + 2) * (r + 2)) by (nonlinear_arith)
            requires r == 2 * r0 && q < (r0 + 1) * (r0 + 1);
        let s = sqrt_nat(x);
        if (r + 1) * (r + 1) <= x {
            assert(s == r + 1);
            assert(s * s <= x);
            assert(x < (s + 1) * (s + 1));
        } else {
            assert(s == r);
            assert(s * s <= x);
            assert(x < (s + 1) * (s + 1));
        }
    }
}

/// Any value satisfying the bracket is the integer square root.
pub proof fn lemma_sqrt_nat_unique(x: nat, r: nat)
    requires
        r * r <= x,
        x < (r + 1) * (r + 1),
    ensures
        r == sqrt_nat(x),
{
    lemma_sqrt_nat_bracket(x);
    let s = sqrt_nat(x);
    if r < s {
        assert((r + 1) * (r + 1) <= s * s) by (nonlinear_arith)
            requires r + 1 <= s;
        assert(false);
    }
    if s < r {
        assert((s + 1) * (s + 1) <= r * r) by (nonlinear_arith)
            requires s + 1 <= r;
        assert(false);
    }
}

/// The product of two `i64` values stays strictly inside the `i128` range.
proof fn lemma_i64_product_bound(a: int, b: int) by (nonlinear_arith)
    requires
        -0x8000_0000_0000_0000 <= a <= 0x7fff_ffff_ffff_ffff,
        -0x8000_0000_0000_0000 <= b <= 0x7fff_ffff_ffff_ffff,
    ensures
        -0x4000_0000_0000_0000_0000_0000_0000_0000 < a * b,
        a * b < 0x4000_0000_0000_0000_0000_0000_0000_0001,
{
}

/// Truncating division of a wide intermediate by the scale factor.
fn wide_tdiv_one(p: i128) -> (q: i128)
    requires
        -(0x4000_0000_0000_0000_0000_0000_0000_0000i128 - 1) <= p,
    ensures
        q == tdiv(p as int, FX_ONE as int),
        vstd::math::abs(q as int) <= vstd::math::abs(p as int),
{
    if p >= 0 {
        (((p as u128) / 65536u128) as i128)
    } else {
        let m = (-p) as u128;
        -((m / 65536u128) as i128)
    }
}

/// Saturate a wide intermediate into an `i64` scalar.
fn clip_i128(q: i128) -> (r: i64)
    ensures
        r as int == fx_clip(q as int),
        fx_in_range(r as int),
{
    if q > 0x7fff_ffff_ffff_ffffi128 {
        FX_MAX
    } else if q < -0x7fff_ffff_ffff_ffffi128 {
        -FX_MAX
    } else {
        q as i64
    }
}

/// Saturating scalar addition.
pub fn fx_add(a: i64, b: i64) -> (r: i64)
    ensures
        r as int == sadd(a as int, b as int),
{
    clip_i128((a as i128) + (b as i128))
}

/// Saturating scalar subtraction.
pub fn fx_sub(a: i64, b: i64) -> (r: i64)
    ensures
        r as int == ssub(a as int, b as int),
{
    clip_i128((a as i128) - (b as i128))
}

/// Scalar negation; exact on the saturated range.
pub fn fx_neg(a: i64) -> (r: i64)
    requires
        fx_in_range(a as int),
    ensures
        r as int == sneg(a as int),
{
    -a
}

/// Saturating fixed-point multiplication.
pub fn fx_mul(a: i64, b: i64) -> (r: i64)
    ensures
        r as int == smul(a as int, b as int),
{
    proof {
        lemma_i64_product_bound(a as int, b as int);
    }
    let p: i128 = (a as i128) * (b as i128);
    let q = wide_tdiv_one(p);
    clip_i128(q)
}

/// Saturating fixed-point division; a zero divisor saturates by the sign of
/// the numerator.
pub fn fx_div(a: i64, b: i64) -> (r: i64)
    ensures
        r as int == sdiv(a as int, b as int),
{
    if b == 0 {
        if a > 0 {
            FX_MAX
        } else if a < 0 {
            -FX_MAX
        } else {
            0
        }
    } else {
        let n: i128 = (a as i128) * 65536;
        let nm: u128 = if n >= 0 {
            n as u128
        } else {
            (-n) as u128
        };
        let dm: u128 = if b >= 0 {
            b as u128
        } else {
            ((-(b as i128)) as u128)
        };
        let qm = nm / dm;
        let q: i128 = if (a >= 0) == (b >= 0) {
            qm as i128
        } else {
            -(qm as i128)
        };
        assert(q == tdiv(a as int * FX_ONE as int, b as int));
        clip_i128(q)
    }
}

/// Integer square root of a wide value by bisection.
fn isqrt_u128(n: u128) -> (r: u128)
    requires
        n < 0x1_0000_0000_0000_0000_0000_0000u128,
    ensures
        r * r <= n,
        n < (r + 1) * (r + 1),
{
    if n == 0 {
        return 0;
    }
    let mut lo: u128 = 0;
    let mut hi: u128 = 0x1_0000_0000_0000u128;
    assert(hi * hi > n) by (nonlinear_arith)
        requires hi == 0x1_0000_0000_0000u128 && n < 0x1_0000_0000_0000_0000_0000_0000u128;
    while lo + 1 < hi
        invariant
            lo < hi,
            hi <= 0x1_0000_0000_0000u128,
            lo * lo <= n,
            n < hi * hi,
        decreases hi - lo,
    {
        let mid = lo + (hi - lo) / 2;
        if mid <= n / mid {
            assert(mid * mid <= n) by (nonlinear_arith)
                requires mid > 0 && mid <= n / mid;
            lo = mid;
        } else {
            assert(n < mid * mid) by (nonlinear_arith)
                requires mid > 0 && mid > n / mid;
            hi = mid;
        }
    }
    lo
}

/// Fixed-point square root; nonpositive inputs give zero.
pub fn fx_sqrt(x: i64) -> (r: i64)
    ensures
        r as int == ssqrt(x as int),
        r >= 0,
        fx_in_range(r as int),
{
    if x <= 0 {
        0
    } else {
        let n: u128 = (x as u128) * 65536;
        let r = isqrt_u128(n);
        proof {
            lemma_sqrt_nat_unique(n as nat, r as nat);
            assert((r as int) * (r as int) <= n as int);
            assert(r as int <= 0x1_0000_0000_0000i128 as int) by (nonlinear_arith)
                requires
                    (r as int) * (r as int) <= n as int,
                    n < 0x1_0000_0000_0000_0000_0000_0000u128;
        }
        r as i64
    }
}

/// Magnitude of any `i64`, saturated into the scalar range.
pub fn fx_mag(a: i64) -> (r: i64)
    ensures
        r as int == fx_clip(sabs(a as int)),
        r >= 0,
{
    if a >= 0 {
        a
    } else if a == -0x7fff_ffff_ffff_ffffi64 - 1 {
        FX_MAX
    } else {
        -a
    }
}

/// Scaling by a factor strictly below one strictly shrinks a positive span.
pub proof fn lemma_unit_scale_strict(u: int, d: int)
    requires
        0 <= u < FX_ONE as int,
        1 <= d,
    ensures
        0 <= smul(u, d) < d,
{
    lemma_smul_le_right(u, d);
    assert(u * d <= 65535 * d) by (nonlinear_arith)
        requires u <= 65535 && d >= 0;
    lemma_tdiv_nonneg(u * d, 65536);
    vstd::arithmetic::div_mod::lemma_div_is_ordered(u * d, 65535 * d, 65536);
    assert(65535 * d < 65536 * d) by (nonlinear_arith)
        requires d >= 1;
    vstd::arithmetic::div_mod::lemma_multiply_divide_lt(65535 * d, 65536, d);
}

/// Absolute value of a scalar.
pub fn fx_abs(a: i64) -> (r: i64)
    requires
        fx_in_range(a as int),
    ensures
        r as int == sabs(a as int),
{
    if a >= 0 {
        a
    } else {
        -a
    }
}

/// The smaller of two scalars.
pub fn fx_min(a: i64, b: i64) -> (r: i64)
    ensures
        r as int == smin(a as int, b as int),
{
    if a <= b {
        a
    } else {
        b
    }
}

/// The larger of two scalars.
pub fn fx_max(a: i64, b: i64) -> (r: i64)
    ensures
        r as int == smax(a as int, b as int),
{
    if a >= b {
        a
    } else {
        b
    }
}

/// Clamp `x` below by `min` first, then above by `max`.
pub open spec fn sclamp(x: int, min: int, max: int) -> int {
    if x < min {
        min
    } else if x > max {
        max
    } else {
        x
    }
}

/// Clamp `x` into `[min, max]`.
pub fn clamp(x: i64, min: i64, max: i64) -> (r: i64)
    ensures
        r as int == sclamp(x as int, min as int, max as int),
        min <= max ==> min <= r <= max,
{
    if x < min {
        min
    } else if x > max {
        max
    } else {
        x
    }
}

} // verus!
