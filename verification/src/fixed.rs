//! Saturating fixed-point scalars.
//!
//! A raw `i64` value `v` stands for the real number `v / SCALE`. Results
//! that leave the `i64` range saturate at the nearest bound; division
//! truncates toward zero, as the hardware does.

use vstd::arithmetic::div_mod::lemma_div_by_multiple;
use vstd::arithmetic::div_mod::lemma_div_is_ordered;
use vstd::arithmetic::div_mod::lemma_div_nonincreasing;
use vstd::arithmetic::div_mod::lemma_div_of0;
use vstd::arithmetic::div_mod::lemma_div_pos_is_pos;
use vstd::arithmetic::div_mod::lemma_fundamental_div_mod;
use vstd::arithmetic::div_mod::lemma_mod_division_less_than_divisor;
use vstd::arithmetic::mul::lemma_mul_basics;
use vstd::arithmetic::mul::lemma_mul_inequality;
use vstd::arithmetic::mul::lemma_mul_cancels_negatives;
use vstd::arithmetic::mul::lemma_mul_is_commutative;
use vstd::arithmetic::mul::lemma_mul_nonnegative;
use vstd::arithmetic::mul::lemma_mul_unary_negation;
use vstd::arithmetic::mul::lemma_mul_upper_bound;
use vstd::prelude::*;

verus! {

/// Scale factor of the fixed-point representation: the raw value `v`
/// stands for `v / SCALE`.
pub const SCALE: i64 = 1_000_000;

/// Magnitude of a mathematical integer.
pub open spec fn mag(a: int) -> int {
    if a < 0 {
        -a
    } else {
        a
    }
}

/// Saturate a mathematical integer into the `i64` range.
pub open spec fn clamped(x: int) -> int {
    if x > i64::MAX as int {
        i64::MAX as int
    } else if x < i64::MIN as int {
        i64::MIN as int
    } else {
        x
    }
}

/// Quotient rounded toward zero, the rounding executable division uses.
/// Meaningful only for `b != 0`.
pub open spec fn quot(a: int, b: int) -> int {
    let q = mag(a) / mag(b);
    if (a < 0) != (b < 0) {
        -q
    } else {
        q
    }
}

/// Fixed-point addition: exact sum, saturated.
pub open spec fn fx_add(a: int, b: int) -> int {
    clamped(a + b)
}

/// Fixed-point subtraction: exact difference, saturated.
pub open spec fn fx_sub(a: int, b: int) -> int {
    clamped(a - b)
}

/// Fixed-point negation, saturated (only `i64::MIN` moves).
pub open spec fn fx_neg(a: int) -> int {
    clamped(-a)
}

fn clamp_to_i64(x: i128) -> (r: i64)
    ensures
        r as int == clamped(x as int),
{
    if x > i64::MAX as i128 {
        i64::MAX
    } else if x < i64::MIN as i128 {
        i64::MIN
    } else {
        x as i64
    }
}

/// Saturating fixed-point addition.
pub fn sat_add(a: i64, b: i64) -> (r: i64)
    ensures
        r as int == fx_add(a as int, b as int),
{
    clamp_to_i64(a as i128 + b as i128)
}

/// Saturating fixed-point subtraction.
pub fn sat_sub(a: i64, b: i64) -> (r: i64)
    ensures
        r as int == fx_sub(a as int, b as int),
{
    clamp_to_i64(a as i128 - b as i128)
}

/// Saturating fixed-point negation.
pub fn sat_neg(a: i64) -> (r: i64)
    ensures
        r as int == fx_neg(a as int),
{
    clamp_to_i64(-(a as i128))
}

/// Fixed-point multiplication: `a * b / SCALE`, truncated, saturated.
pub open spec fn fx_mul(a: int, b: int) -> int {
    clamped(quot(a * b, SCALE as int))
}

/// Fixed-point division: `a * SCALE / b`, truncated, saturated.
/// Meaningful only for `b != 0`.
pub open spec fn fx_div(a: int, b: int) -> int {
    clamped(quot(a * (SCALE as int), b))
}

/// Division of a fixed-point value by a plain integer count, truncated.
/// Meaningful only for `b != 0`.
pub open spec fn fx_div_int(a: int, b: int) -> int {
    quot(a, b)
}

/// The magnitude of a product is the product of the magnitudes.
pub proof fn lemma_mag_mul(a: int, b: int)
    ensures
        mag(a * b) == mag(a) * mag(b),
{
    if a >= 0 && b >= 0 {
        lemma_mul_nonnegative(a, b);
    } else if a < 0 && b < 0 {
        lemma_mul_cancels_negatives(a, b);
        lemma_mul_nonnegative(-a, -b);
    } else if a < 0 {
        lemma_mul_unary_negation(a, b);
        lemma_mul_nonnegative(-a, b);
    } else {
        lemma_mul_unary_negation(b, a);
        lemma_mul_is_commutative(a, b);
        lemma_mul_is_commutative(-b, a);
        lemma_mul_nonnegative(a, -b);
    }
}

/// Squares are nonnegative.
pub proof fn lemma_square_nonneg(x: int)
    ensures
        x * x >= 0,
{
    if x >= 0 {
        lemma_mul_nonnegative(x, x);
    } else {
        lemma_mul_cancels_negatives(x, x);
        lemma_mul_nonnegative(-x, -x);
    }
}

/// A fixed-point square is nonnegative.
pub proof fn lemma_fx_mul_self_nonneg(x: int)
    ensures
        fx_mul(x, x) >= 0,
{
    lemma_square_nonneg(x);
    lemma_div_pos_is_pos(x * x, SCALE as int);
}

/// Multiplying by the fixed-point zero gives zero.
pub proof fn lemma_fx_mul_zero(a: int)
    ensures
        fx_mul(a, 0) == 0,
{
    lemma_mul_basics(a);
    lemma_div_of0(SCALE as int);
}

/// The magnitude of a truncating quotient never exceeds the dividend's.
pub proof fn lemma_quot_mag(a: int, b: int)
    requires
        b != 0,
    ensures
        mag(quot(a, b)) <= mag(a),
{
    lemma_div_nonincreasing(mag(a), mag(b));
}

fn quot_i128(a: i128, b: i128) -> (r: i128)
    requires
        b != 0,
        a > i128::MIN,
        b > i128::MIN,
    ensures
        r as int == quot(a as int, b as int),
{
    let ua: u128 = if a < 0 {
        (-a) as u128
    } else {
        a as u128
    };
    let ub: u128 = if b < 0 {
        (-b) as u128
    } else {
        b as u128
    };
    assert(ua as int == mag(a as int));
    assert(ub as int == mag(b as int));
    let uq: u128 = ua / ub;
    proof {
        lemma_div_nonincreasing(ua as int, ub as int);
    }
    if (a < 0) != (b < 0) {
        -(uq as i128)
    } else {
        uq as i128
    }
}

/// Saturating fixed-point multiplication.
pub fn sat_mul(a: i64, b: i64) -> (r: i64)
    ensures
        r as int == fx_mul(a as int, b as int),
{
    proof {
        lemma_mag_mul(a as int, b as int);
        lemma_mul_upper_bound(
            mag(a as int),
            0x8000_0000_0000_0000int,
            mag(b as int),
            0x8000_0000_0000_0000int,
        );
    }
    let p: i128 = (a as i128) * (b as i128);
    clamp_to_i64(quot_i128(p, SCALE as i128))
}

/// Saturating fixed-point division. The divisor must not be zero.
pub fn sat_div(a: i64, b: i64) -> (r: i64)
    requires
        b != 0,
    ensures
        r as int == fx_div(a as int, b as int),
{
    proof {
        lemma_mag_mul(a as int, SCALE as int);
        lemma_mul_upper_bound(mag(a as int), 0x8000_0000_0000_0000int, SCALE as int, SCALE as int);
    }
    let p: i128 = (a as i128) * (SCALE as i128);
    clamp_to_i64(quot_i128(p, b as i128))
}

/// Divide a fixed-point value by a positive integer count (averaging).
pub fn sat_div_int(a: i64, b: i64) -> (r: i64)
    requires
        b > 0,
    ensures
        r as int == fx_div_int(a as int, b as int),
{
    proof {
        lemma_quot_mag(a as int, b as int);
    }
    quot_i128(a as i128, b as i128) as i64
}

/// Floor of the square root: the unique `r >= 0` with
/// `r * r <= n < (r + 1) * (r + 1)`.
pub open spec fn sqrt_floor(n: int) -> int {
    choose|r: int| 0 <= r && #[trigger] (r * r) <= n && n < (r + 1) * (r + 1)
}

/// Square root of a fixed-point value: since the raw value `a` stands for
/// `a / SCALE`, the root's raw value is the floor root of `a * SCALE`.
pub open spec fn fx_sqrt(a: int) -> int {
    sqrt_floor(a * (SCALE as int))
}

/// Every nonnegative integer has a floor square root, so `sqrt_floor`
/// meets its characterization.
pub proof fn lemma_sqrt_floor(n: int)
    requires
        n >= 0,
    ensures
        0 <= sqrt_floor(n),
        sqrt_floor(n) * sqrt_floor(n) <= n,
        n < (sqrt_floor(n) + 1) * (sqrt_floor(n) + 1),
    decreases n,
{
    if n == 0 {
        assert(0 <= 0int && 0int * 0int <= 0int && 0int < (0int + 1) * (0int + 1));
    } else {
        lemma_sqrt_floor(n - 1);
        let r = sqrt_floor(n - 1);
        if n < (r + 1) * (r + 1) {
            assert(0 <= r && r * r <= n && n < (r + 1) * (r + 1));
        } else {
            let s = r + 1;
            assert((s + 1) * (s + 1) == s * s + 2 * s + 1) by (nonlinear_arith);
            assert(0 <= s && s * s <= n && n < (s + 1) * (s + 1));
        }
    }
}

/// The floor square root is unique: any `r` meeting the characterization
/// is `sqrt_floor(n)`.
pub proof fn lemma_sqrt_unique(n: int, r: int)
    requires
        0 <= r,
        r * r <= n,
        n < (r + 1) * (r + 1),
    ensures
        r == sqrt_floor(n),
{
    lemma_mul_nonnegative(r, r);
    lemma_sqrt_floor(n);
    let s = sqrt_floor(n);
    assert(r < s ==> (r + 1) * (r + 1) <= s * s) by (nonlinear_arith)
        requires
            0 <= r,
            0 <= s,
    ;
    assert(s < r ==> (s + 1) * (s + 1) <= r * r) by (nonlinear_arith)
        requires
            0 <= r,
            0 <= s,
    ;
}

/// A fixed-point product of nonnegative values is nonnegative.
pub proof fn lemma_fx_mul_nonneg(a: int, b: int)
    requires
        a >= 0,
        b >= 0,
    ensures
        fx_mul(a, b) >= 0,
{
    lemma_mul_nonnegative(a, b);
    lemma_div_pos_is_pos(a * b, SCALE as int);
}

/// A truncating quotient of nonnegative by positive is nonnegative.
pub proof fn lemma_quot_nonneg(a: int, b: int)
    requires
        a >= 0,
        b > 0,
    ensures
        quot(a, b) >= 0,
{
    lemma_div_pos_is_pos(a, b);
}

/// Scaling up by `SCALE` and dividing it off again is exact.
pub proof fn lemma_quot_cancel(a: int)
    ensures
        quot(a * (SCALE as int), SCALE as int) == a,
{
    lemma_mag_mul(a, SCALE as int);
    lemma_div_by_multiple(mag(a), SCALE as int);
}

/// Multiplying by the fixed-point one (`SCALE`) changes nothing
/// representable.
pub proof fn lemma_fx_mul_one(a: int)
    requires
        i64::MIN <= a <= i64::MAX,
    ensures
        fx_mul(a, SCALE as int) == a,
{
    lemma_quot_cancel(a);
}

/// Fixed-point multiplication is commutative.
pub proof fn lemma_fx_mul_comm(a: int, b: int)
    ensures
        fx_mul(a, b) == fx_mul(b, a),
{
    lemma_mul_is_commutative(a, b);
}

/// Multiplying by a factor in [0, 1] never grows the magnitude.
pub proof fn lemma_fx_mul_shrink(a: int, b: int)
    requires
        0 <= b <= SCALE,
    ensures
        mag(fx_mul(a, b)) <= mag(a),
{
    lemma_mag_mul(a, b);
    lemma_mul_inequality(b, SCALE as int, mag(a));
    lemma_mul_is_commutative(b, mag(a));
    lemma_mul_is_commutative(SCALE as int, mag(a));
    lemma_div_is_ordered(mag(a) * b, mag(a) * (SCALE as int), SCALE as int);
    lemma_div_by_multiple(mag(a), SCALE as int);
    lemma_div_pos_is_pos(mag(a) * b, SCALE as int);
}

/// The scaled quotient `c * SCALE / sqrt(sq)` that normalization takes
/// is bounded whenever `sq` is positive and at least the fixed-point
/// square of `c`: about 1.5 in the exact regime, and about 3.1 million
/// raw units in the regime where the square saturates.
pub proof fn lemma_unit_quot_mag(c: i64, sq: i64)
    requires
        sq >= 1,
        fx_mul(c as int, c as int) <= sq as int,
    ensures
        fx_sqrt(sq as int) >= 1000,
        mag(fx_div(c as int, fx_sqrt(sq as int))) <= 3_100_000_000_000,
{
    let s = SCALE as int;
    let n = (sq as int) * s;
    lemma_mul_inequality(1, sq as int, s);
    lemma_mul_basics(s);
    lemma_sqrt_floor(n);
    let len = sqrt_floor(n);
    assert(len >= 1000) by (nonlinear_arith)
        requires
            len >= 0,
            n < (len + 1) * (len + 1),
            n >= 1_000_000,
    ;
    let m = fx_mul(c as int, c as int);
    lemma_fx_mul_self_nonneg(c as int);
    lemma_square_nonneg(c as int);
    lemma_mag_mul(c as int, c as int);
    if m < i64::MAX {
        lemma_fundamental_div_mod((c as int) * (c as int), s);
        lemma_mod_division_less_than_divisor((c as int) * (c as int), s);
        lemma_mul_is_commutative(s, ((c as int) * (c as int)) / s);
        lemma_mul_is_commutative(sq as int, s);
        lemma_mul_inequality(m, sq as int, s);
        assert(mag(c as int) <= len + 501) by (nonlinear_arith)
            requires
                mag(c as int) >= 0,
                mag(c as int) * mag(c as int) < (len + 1) * (len + 1) + 1_000_000,
                len >= 1000,
        ;
        lemma_mag_mul(c as int, s);
        lemma_mul_inequality(mag(c as int), len + 501, s);
        assert((len + 501) * s <= (s + 501_000) * len) by (nonlinear_arith)
            requires
                len >= 1000,
                s == 1_000_000,
        ;
        lemma_div_is_ordered(mag(c as int) * s, (s + 501_000) * len, len);
        lemma_div_by_multiple(s + 501_000, len);
    } else {
        assert(sq == i64::MAX);
        assert(len >= 3_000_000_000_000) by (nonlinear_arith)
            requires
                len >= 0,
                n < (len + 1) * (len + 1),
                n == 0x7fff_ffff_ffff_ffffint * 1_000_000int,
        ;
        lemma_mag_mul(c as int, s);
        lemma_mul_inequality(mag(c as int), 0x8000_0000_0000_0000int, s);
        assert(0x8000_0000_0000_0000int * s <= 3_100_000_000_000int * len) by (nonlinear_arith)
            requires
                len >= 3_000_000_000_000,
                s == 1_000_000,
        ;
        lemma_div_is_ordered(mag(c as int) * s, 3_100_000_000_000int * len, len);
        lemma_div_by_multiple(3_100_000_000_000, len);
    }
}

/// In the exact regime -- a vector of unit scale or longer, with
/// components well inside the saturation threshold -- the normalized
/// component exceeds one by at most a single raw unit.
pub proof fn lemma_unit_quot_tight(c: i64, sq: i64)
    requires
        sq >= SCALE,
        -3_000_000_000_000 <= c <= 3_000_000_000_000,
        fx_mul(c as int, c as int) <= sq as int,
    ensures
        fx_sqrt(sq as int) >= SCALE,
        mag(fx_div(c as int, fx_sqrt(sq as int))) <= SCALE as int + 1,
{
    let s = SCALE as int;
    let n = (sq as int) * s;
    lemma_mul_inequality(s, sq as int, s);
    lemma_sqrt_floor(n);
    let len = sqrt_floor(n);
    assert(len >= s) by (nonlinear_arith)
        requires
            len >= 0,
            n < (len + 1) * (len + 1),
            n >= 1_000_000_000_000,
            s == 1_000_000,
    ;
    let m = fx_mul(c as int, c as int);
    lemma_fx_mul_self_nonneg(c as int);
    lemma_square_nonneg(c as int);
    lemma_mag_mul(c as int, c as int);
    lemma_mul_upper_bound(mag(c as int), 3_000_000_000_000, mag(c as int), 3_000_000_000_000);
    lemma_fundamental_div_mod((c as int) * (c as int), s);
    lemma_mod_division_less_than_divisor((c as int) * (c as int), s);
    lemma_mul_is_commutative(s, ((c as int) * (c as int)) / s);
    lemma_mul_is_commutative(sq as int, s);
    lemma_mul_inequality(m, sq as int, s);
    assert(mag(c as int) <= len + 1) by (nonlinear_arith)
        requires
            mag(c as int) >= 0,
            mag(c as int) * mag(c as int) < (len + 1) * (len + 1) + 1_000_000,
            len >= 1_000_000,
    ;
    lemma_mag_mul(c as int, s);
    lemma_mul_inequality(mag(c as int), len + 1, s);
    assert((len + 1) * s <= (s + 1) * len) by (nonlinear_arith)
        requires
            len >= 1_000_000,
            s == 1_000_000,
    ;
    lemma_div_is_ordered(mag(c as int) * s, (s + 1) * len, len);
    lemma_div_by_multiple(s + 1, len);
}

/// Truncating division by a positive divisor is monotone in the dividend.
pub proof fn lemma_quot_monotone(x: int, y: int, d: int)
    requires
        x <= y,
        d > 0,
    ensures
        quot(x, d) <= quot(y, d),
{
    if x >= 0 {
        lemma_div_is_ordered(x, y, d);
    } else if y < 0 {
        lemma_div_is_ordered(-y, -x, d);
    } else {
        lemma_div_pos_is_pos(-x, d);
        lemma_div_pos_is_pos(y, d);
    }
}

/// Fixed-point division by a positive divisor is monotone in the dividend.
pub proof fn lemma_fx_div_monotone(x: int, y: int, d: int)
    requires
        x <= y,
        d > 0,
    ensures
        fx_div(x, d) <= fx_div(y, d),
{
    lemma_mul_inequality(x, y, SCALE as int);
    lemma_quot_monotone(x * (SCALE as int), y * (SCALE as int), d);
}

/// Truncating quotient decomposition: the remainder `a - quot(a, b) * b`
/// is smaller in magnitude than the divisor, and the quotient scaled
/// back up never overshoots the dividend.
pub proof fn lemma_quot_decompose(a: int, b: int)
    requires
        b > 0,
    ensures
        mag(a - quot(a, b) * b) < b,
        mag(quot(a, b)) * b <= mag(a),
{
    lemma_fundamental_div_mod(mag(a), b);
    lemma_mod_division_less_than_divisor(mag(a), b);
    let q = mag(a) / b;
    if a < 0 {
        lemma_mul_unary_negation(q, b);
        lemma_mul_is_commutative(q, b);
    } else {
        lemma_mul_is_commutative(q, b);
    }
}

/// The fixed-point root of zero is zero.
pub proof fn lemma_fx_sqrt_zero()
    ensures
        fx_sqrt(0) == 0,
{
    lemma_mul_basics(SCALE as int);
    lemma_sqrt_unique(0, 0);
}

/// The fixed-point root of any positive value is positive.
pub proof fn lemma_fx_sqrt_pos(a: int)
    requires
        a >= 1,
    ensures
        fx_sqrt(a) > 0,
{
    let n = a * (SCALE as int);
    lemma_mul_inequality(1, a, SCALE as int);
    lemma_mul_basics(SCALE as int);
    lemma_sqrt_floor(n);
}

fn isqrt_u128(n: u128) -> (r: u128)
    ensures
        (r as int) * (r as int) <= n as int,
        (n as int) < (r as int + 1) * (r as int + 1),
{
    let mut lo: u128 = 0;
    let mut hi: u128 = 0x1_0000_0000_0000_0000;
    assert((n as int) < (hi as int) * (hi as int)) by (nonlinear_arith)
        requires
            hi == 0x1_0000_0000_0000_0000u128,
            n <= u128::MAX,
    ;
    while lo + 1 < hi
        invariant
            lo < hi,
            hi <= 0x1_0000_0000_0000_0000u128,
            (lo as int) * (lo as int) <= n as int,
            (n as int) < (hi as int) * (hi as int),
        decreases hi - lo,
    {
        let mid: u128 = lo + (hi - lo) / 2;
        assert((mid as int) * (mid as int) <= u128::MAX as int) by (nonlinear_arith)
            requires
                mid < 0x1_0000_0000_0000_0000u128,
        ;
        let sq: u128 = mid * mid;
        if sq <= n {
            lo = mid;
        } else {
            hi = mid;
        }
    }
    lo
}

/// Saturating fixed-point square root of a nonnegative value. The result
/// always fits: it never exceeds the root of `i64::MAX * SCALE`.
pub fn sat_sqrt(a: i64) -> (r: i64)
    requires
        a >= 0,
    ensures
        r as int == fx_sqrt(a as int),
        r >= 0,
{
    proof {
        lemma_mul_upper_bound(a as int, 0x8000_0000_0000_0000int, SCALE as int, SCALE as int);
    }
    let n: u128 = (a as u128) * (SCALE as u128);
    let r = isqrt_u128(n);
    assert((r as int) < 0x10_0000_0000_0000int) by (nonlinear_arith)
        requires
            (r as int) * (r as int) <= n as int,
            n as int <= 0x8000_0000_0000_0000int * 1_000_000int,
    ;
    proof {
        lemma_sqrt_unique(n as int, r as int);
    }
    r as i64
}

} // verus!
