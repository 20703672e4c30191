//! Three-component fixed-point vectors, used both for points in space and
//! for colors (`x/y/z` double as `r/g/b`).

use crate::fixed::{
    fx_add, fx_div, fx_mul, fx_neg, fx_sqrt, fx_sub, mag, quot, sat_add, sat_div, sat_mul,
    sat_neg, sat_sqrt, sat_sub, SCALE,
};
use vstd::arithmetic::div_mod::{
    lemma_div_by_multiple, lemma_div_is_ordered, lemma_div_pos_is_pos, lemma_fundamental_div_mod,
    lemma_mod_division_less_than_divisor,
};
use vstd::arithmetic::mul::{
    lemma_mul_inequality, lemma_mul_is_commutative, lemma_mul_strictly_positive,
    lemma_mul_upper_bound,
};
use vstd::prelude::*;

verus! {

#[derive(Clone, Copy, Debug, PartialEq, Eq, Structural)]
pub struct Vec3 {
    pub x: i64,
    pub y: i64,
    pub z: i64,
}

impl Vec3 {
    /// Componentwise sum.
    pub open spec fn spec_add(a: Vec3, b: Vec3) -> Vec3 {
        Vec3 {
            x: fx_add(a.x as int, b.x as int) as i64,
            y: fx_add(a.y as int, b.y as int) as i64,
            z: fx_add(a.z as int, b.z as int) as i64,
        }
    }

    /// Componentwise difference.
    pub open spec fn spec_sub(a: Vec3, b: Vec3) -> Vec3 {
        Vec3 {
            x: fx_sub(a.x as int, b.x as int) as i64,
            y: fx_sub(a.y as int, b.y as int) as i64,
            z: fx_sub(a.z as int, b.z as int) as i64,
        }
    }

    /// Componentwise negation.
    pub open spec fn spec_neg(a: Vec3) -> Vec3 {
        Vec3 {
            x: fx_neg(a.x as int) as i64,
            y: fx_neg(a.y as int) as i64,
            z: fx_neg(a.z as int) as i64,
        }
    }

    /// Componentwise (Hadamard) product.
    pub open spec fn spec_mul(a: Vec3, b: Vec3) -> Vec3 {
        Vec3 {
            x: fx_mul(a.x as int, b.x as int) as i64,
            y: fx_mul(a.y as int, b.y as int) as i64,
            z: fx_mul(a.z as int, b.z as int) as i64,
        }
    }

    /// Product with a fixed-point scalar.
    pub open spec fn spec_scale(a: Vec3, s: int) -> Vec3 {
        Vec3 {
            x: fx_mul(a.x as int, s) as i64,
            y: fx_mul(a.y as int, s) as i64,
            z: fx_mul(a.z as int, s) as i64,
        }
    }

    /// Quotient by a fixed-point scalar (meaningful only for `s != 0`).
    pub open spec fn spec_div_scalar(a: Vec3, s: int) -> Vec3 {
        Vec3 {
            x: fx_div(a.x as int, s) as i64,
            y: fx_div(a.y as int, s) as i64,
            z: fx_div(a.z as int, s) as i64,
        }
    }

    /// Dot product.
    pub open spec fn spec_dot(a: Vec3, b: Vec3) -> int {
        fx_add(
            fx_add(fx_mul(a.x as int, b.x as int), fx_mul(a.y as int, b.y as int)),
            fx_mul(a.z as int, b.z as int),
        )
    }

    /// Squared length: the dot product of a vector with itself.
    pub open spec fn spec_squared_length(a: Vec3) -> int {
        Self::spec_dot(a, a)
    }

    /// Length: fixed-point square root of the squared length.
    pub open spec fn spec_length(a: Vec3) -> int {
        fx_sqrt(Self::spec_squared_length(a))
    }

    /// The vector scaled to unit length by dividing through its length
    /// (meaningful only when the length is nonzero).
    pub open spec fn spec_unit(a: Vec3) -> Vec3 {
        Self::spec_div_scalar(a, Self::spec_length(a))
    }

    pub fn new(e0: i64, e1: i64, e2: i64) -> (v: Vec3)
        ensures
            v == (Vec3 { x: e0, y: e1, z: e2 }),
    {
        Vec3 { x: e0, y: e1, z: e2 }
    }

    pub fn x(&self) -> (r: i64)
        ensures
            r == self.x,
    {
        self.x
    }

    pub fn y(&self) -> (r: i64)
        ensures
            r == self.y,
    {
        self.y
    }

    pub fn z(&self) -> (r: i64)
        ensures
            r == self.z,
    {
        self.z
    }

    pub fn r(&self) -> (r: i64)
        ensures
            r == self.x,
    {
        self.x
    }

    pub fn g(&self) -> (r: i64)
        ensures
            r == self.y,
    {
        self.y
    }

    pub fn b(&self) -> (r: i64)
        ensures
            r == self.z,
    {
        self.z
    }

    /// Component access by position; positions past the third are a
    /// caller error, excluded by precondition.
    pub fn index(&self, index: usize) -> (r: i64)
        requires
            index < 3,
        ensures
            r == (if index == 0 {
                self.x
            } else if index == 1 {
                self.y
            } else {
                self.z
            }),
    {
        if index == 0 {
            self.x
        } else if index == 1 {
            self.y
        } else {
            self.z
        }
    }

    pub fn squared_length(&self) -> (r: i64)
        ensures
            r as int == Self::spec_squared_length(*self),
    {
        let xx = sat_mul(self.x, self.x);
        let yy = sat_mul(self.y, self.y);
        let zz = sat_mul(self.z, self.z);
        sat_add(sat_add(xx, yy), zz)
    }

    pub fn length(&self) -> (r: i64)
        ensures
            r as int == Self::spec_length(*self),
            r >= 0,
    {
        let sq = self.squared_length();
        proof {
            lemma_squared_length_nonneg(*self);
        }
        sat_sqrt(sq)
    }

    pub fn dot(v1: &Vec3, v2: &Vec3) -> (r: i64)
        ensures
            r as int == Self::spec_dot(*v1, *v2),
    {
        let xx = sat_mul(v1.x, v2.x);
        let yy = sat_mul(v1.y, v2.y);
        let zz = sat_mul(v1.z, v2.z);
        sat_add(sat_add(xx, yy), zz)
    }

    pub fn unit_vector(v: &Vec3) -> (r: Vec3)
        requires
            Self::spec_length(*v) > 0,
        ensures
            r == Self::spec_unit(*v),
    {
        let len = v.length();
        v.div_scalar(len)
    }

    /// Normalizes in place: afterwards the vector is its own unit vector.
    pub fn make_unit_vector(&mut self)
        requires
            Self::spec_length(*old(self)) > 0,
        ensures
            *final(self) == Self::spec_unit(*old(self)),
    {
        let len = self.length();
        self.x = sat_div(self.x, len);
        self.y = sat_div(self.y, len);
        self.z = sat_div(self.z, len);
    }

    pub fn add(self, other: Vec3) -> (r: Vec3)
        ensures
            r == Self::spec_add(self, other),
    {
        Vec3 {
            x: sat_add(self.x, other.x),
            y: sat_add(self.y, other.y),
            z: sat_add(self.z, other.z),
        }
    }

    pub fn sub(self, other: Vec3) -> (r: Vec3)
        ensures
            r == Self::spec_sub(self, other),
    {
        Vec3 {
            x: sat_sub(self.x, other.x),
            y: sat_sub(self.y, other.y),
            z: sat_sub(self.z, other.z),
        }
    }

    pub fn neg(self) -> (r: Vec3)
        ensures
            r == Self::spec_neg(self),
    {
        Vec3 { x: sat_neg(self.x), y: sat_neg(self.y), z: sat_neg(self.z) }
    }

    pub fn mul(self, rhs: Vec3) -> (r: Vec3)
        ensures
            r == Self::spec_mul(self, rhs),
    {
        Vec3 {
            x: sat_mul(self.x, rhs.x),
            y: sat_mul(self.y, rhs.y),
            z: sat_mul(self.z, rhs.z),
        }
    }

    pub fn mul_scalar(self, scalar: i64) -> (r: Vec3)
        ensures
            r == Self::spec_scale(self, scalar as int),
    {
        Vec3 {
            x: sat_mul(self.x, scalar),
            y: sat_mul(self.y, scalar),
            z: sat_mul(self.z, scalar),
        }
    }

    /// Division by exactly zero is a caller error, excluded by precondition.
    pub fn div_scalar(self, scalar: i64) -> (r: Vec3)
        requires
            scalar != 0,
        ensures
            r == Self::spec_div_scalar(self, scalar as int),
    {
        Vec3 {
            x: sat_div(self.x, scalar),
            y: sat_div(self.y, scalar),
            z: sat_div(self.z, scalar),
        }
    }

    pub fn add_assign(&mut self, other: Vec3)
        ensures
            *final(self) == Self::spec_add(*old(self), other),
    {
        self.x = sat_add(self.x, other.x);
        self.y = sat_add(self.y, other.y);
        self.z = sat_add(self.z, other.z);
    }

    pub fn sub_assign(&mut self, other: Vec3)
        ensures
            *final(self) == Self::spec_sub(*old(self), other),
    {
        self.x = sat_sub(self.x, other.x);
        self.y = sat_sub(self.y, other.y);
        self.z = sat_sub(self.z, other.z);
    }

    /// Compound division scales by the fixed-point reciprocal of the
    /// divisor, so it rounds differently than `div_scalar`.
    pub fn div_assign(&mut self, rhs: i64)
        requires
            rhs != 0,
        ensures
            *final(self) == Self::spec_scale(*old(self), fx_div(SCALE as int, rhs as int)),
    {
        let k = sat_div(SCALE, rhs);
        self.x = sat_mul(self.x, k);
        self.y = sat_mul(self.y, k);
        self.z = sat_mul(self.z, k);
    }
}

impl Default for Vec3 {
    /// The zero vector.
    fn default() -> (v: Vec3)
        ensures
            v == (Vec3 { x: 0i64, y: 0i64, z: 0i64 }),
    {
        Vec3 { x: 0, y: 0, z: 0 }
    }
}

/// A squared length is never negative.
pub proof fn lemma_squared_length_nonneg(v: Vec3)
    ensures
        Vec3::spec_squared_length(v) >= 0,
{
    crate::fixed::lemma_fx_mul_self_nonneg(v.x as int);
    crate::fixed::lemma_fx_mul_self_nonneg(v.y as int);
    crate::fixed::lemma_fx_mul_self_nonneg(v.z as int);
}

/// Scaling any vector by the fixed-point zero gives the zero vector.
pub proof fn lemma_scale_zero(v: Vec3)
    ensures
        Vec3::spec_scale(v, 0) == (Vec3 { x: 0i64, y: 0i64, z: 0i64 }),
{
    crate::fixed::lemma_fx_mul_zero(v.x as int);
    crate::fixed::lemma_fx_mul_zero(v.y as int);
    crate::fixed::lemma_fx_mul_zero(v.z as int);
}

/// Adding the zero vector changes nothing.
pub proof fn lemma_add_zero(v: Vec3)
    ensures
        Vec3::spec_add(v, Vec3 { x: 0i64, y: 0i64, z: 0i64 }) == v,
{
}

/// A vector's computed length is positive exactly when its computed
/// squared length is (truncation sends squared lengths below one raw
/// unit to zero).
pub proof fn lemma_length_sign(v: Vec3)
    ensures
        Vec3::spec_length(v) > 0 <==> Vec3::spec_squared_length(v) >= 1,
        Vec3::spec_length(v) >= 0,
        Vec3::spec_squared_length(v) >= 0,
{
    lemma_squared_length_nonneg(v);
    let sq = Vec3::spec_squared_length(v);
    if sq == 0 {
        crate::fixed::lemma_fx_sqrt_zero();
    } else {
        crate::fixed::lemma_fx_sqrt_pos(sq);
    }
}

/// One component's square term of a squared length: exact division
/// facts and bounds, for components of moderate magnitude.
proof fn lemma_sq_term(c: int)
    requires
        -1_000_000_000_000 <= c <= 1_000_000_000_000,
    ensures
        c * c >= 0,
        c * c <= 1_000_000_000_000_000_000_000_000,
        0 <= fx_mul(c, c) <= 1_000_000_000_000_000_000,
        (SCALE as int) * fx_mul(c, c) <= c * c,
        c * c < (SCALE as int) * fx_mul(c, c) + (SCALE as int),
{
    let s = SCALE as int;
    crate::fixed::lemma_square_nonneg(c);
    crate::fixed::lemma_mag_mul(c, c);
    lemma_mul_upper_bound(mag(c), 1_000_000_000_000, mag(c), 1_000_000_000_000);
    lemma_div_pos_is_pos(c * c, s);
    lemma_div_is_ordered(c * c, 1_000_000_000_000_000_000_000_000, s);
    lemma_div_by_multiple(1_000_000_000_000_000_000, s);
    lemma_fundamental_div_mod(c * c, s);
    lemma_mod_division_less_than_divisor(c * c, s);
    lemma_mul_is_commutative(s, (c * c) / s);
}

/// One component of the unit vector: the scaled quotient stays within
/// a few raw units of one in magnitude, and its remainder against the
/// length is small.
proof fn lemma_unit_term(c: int, len: int)
    requires
        len >= SCALE as int,
        -(len + 2) <= c <= len + 2,
    ensures
        -(SCALE as int + 3) <= quot(c * (SCALE as int), len) <= SCALE as int + 3,
        fx_div(c, len) == quot(c * (SCALE as int), len),
        -(len - 1) <= c * (SCALE as int) - quot(c * (SCALE as int), len) * len <= len - 1,
{
    let s = SCALE as int;
    crate::fixed::lemma_mag_mul(c, s);
    crate::fixed::lemma_quot_decompose(c * s, len);
    let u = quot(c * s, len);
    lemma_mul_inequality(mag(c), len + 2, s);
    assert(mag(u) * len <= (len + 2) * s);
    assert(mag(u) <= s + 3) by (nonlinear_arith)
        requires
            mag(u) >= 0,
            mag(u) * len <= (len + 2) * s,
            len >= s,
            s == 1_000_000,
    ;
}

/// One component's contribution to the unit vector's squared length:
/// `u^2 * len^2` tracks `c^2 * SCALE^2` to within `len^2 * (2*SCALE+7)`.
proof fn lemma_unit_term_error(c: int, len: int)
    requires
        len >= SCALE as int,
        -(len + 2) <= c <= len + 2,
    ensures
        -(SCALE as int + 3) <= quot(c * (SCALE as int), len) <= SCALE as int + 3,
        fx_div(c, len) == quot(c * (SCALE as int), len),
        quot(c * (SCALE as int), len) * quot(c * (SCALE as int), len) * (len * len) >= c * c * (
        (SCALE as int) * (SCALE as int)) - (len * len) * (2 * (SCALE as int) + 7),
        quot(c * (SCALE as int), len) * quot(c * (SCALE as int), len) * (len * len) <= c * c * (
        (SCALE as int) * (SCALE as int)) + (len * len) * (2 * (SCALE as int) + 7),
{
    let s = SCALE as int;
    lemma_unit_term(c, len);
    let u = quot(c * s, len);
    let r = c * s - u * len;
    assert(u * u * (len * len) >= c * c * (s * s) - (len * len) * (2 * s + 7) && u * u * (len
        * len) <= c * c * (s * s) + (len * len) * (2 * s + 7)) by (nonlinear_arith)
        requires
            c * s == u * len + r,
            -(len - 1) <= r <= len - 1,
            -(s + 3) <= u <= s + 3,
            len >= s,
            s == 1_000_000,
    ;
}

/// The computed unit vector of any vector whose computed squared
/// length is at least one has squared length one again, up to a few
/// dozen raw truncation units. (Below that threshold truncation
/// dominates: the vector with raw components (1414, 0, 0) has computed
/// squared length 1, and its computed unit vector has squared length
/// near two.)
pub proof fn lemma_unit_vector_near_unit_length(v: Vec3)
    requires
        Vec3::spec_squared_length(v) >= SCALE,
        -1_000_000_000_000 <= v.x <= 1_000_000_000_000,
        -1_000_000_000_000 <= v.y <= 1_000_000_000_000,
        -1_000_000_000_000 <= v.z <= 1_000_000_000_000,
    ensures
        SCALE - 50 <= Vec3::spec_squared_length(Vec3::spec_unit(v)) <= SCALE + 50,
{
    let s = SCALE as int;
    let x = v.x as int;
    let y = v.y as int;
    let z = v.z as int;
    lemma_sq_term(x);
    lemma_sq_term(y);
    lemma_sq_term(z);
    let sq = Vec3::spec_squared_length(v);
    assert(sq == fx_mul(x, x) + fx_mul(y, y) + fx_mul(z, z));
    let xx = x * x + y * y + z * z;
    assert(s * sq <= xx < s * sq + 3 * s);

    // the computed length and its bracketing
    vstd::arithmetic::mul::lemma_mul_nonnegative(sq, s);
    crate::fixed::lemma_sqrt_floor(sq * s);
    let len = Vec3::spec_length(v);
    assert(len == crate::fixed::sqrt_floor(sq * s));
    lemma_mul_inequality(s, sq, s);
    lemma_mul_is_commutative(sq, s);
    assert(len >= s) by (nonlinear_arith)
        requires
            len >= 0,
            sq * s < (len + 1) * (len + 1),
            sq * s >= 1_000_000_000_000,
            s == 1_000_000,
    ;

    // every component is at most a little past the length
    assert((len + 1) * (len + 1) + 3 * s < (len + 3) * (len + 3)) by (nonlinear_arith)
        requires
            len >= s,
            s == 1_000_000,
    ;
    assert(-(len + 2) <= x <= len + 2 && -(len + 2) <= y <= len + 2 && -(len + 2) <= z <= len
        + 2) by (nonlinear_arith)
        requires
            x * x <= xx,
            y * y <= xx,
            z * z <= xx,
            x * x >= 0,
            y * y >= 0,
            z * z >= 0,
            xx < (len + 3) * (len + 3),
            len >= s,
            s == 1_000_000,
    ;

    lemma_unit_term_error(x, len);
    lemma_unit_term_error(y, len);
    lemma_unit_term_error(z, len);
    let ux = quot(x * s, len);
    let uy = quot(y * s, len);
    let uz = quot(z * s, len);
    let unit = Vec3::spec_unit(v);
    assert(unit.x as int == ux && unit.y as int == uy && unit.z as int == uz);

    // sum the three per-component error brackets
    let uu = ux * ux + uy * uy + uz * uz;
    assert(uu * (len * len) >= xx * (s * s) - (len * len) * (6 * s + 21) && uu * (len * len)
        <= xx * (s * s) + (len * len) * (6 * s + 21)) by (nonlinear_arith)
        requires
            uu == ux * ux + uy * uy + uz * uz,
            xx == x * x + y * y + z * z,
            ux * ux * (len * len) >= x * x * (s * s) - (len * len) * (2 * s + 7),
            ux * ux * (len * len) <= x * x * (s * s) + (len * len) * (2 * s + 7),
            uy * uy * (len * len) >= y * y * (s * s) - (len * len) * (2 * s + 7),
            uy * uy * (len * len) <= y * y * (s * s) + (len * len) * (2 * s + 7),
            uz * uz * (len * len) >= z * z * (s * s) - (len * len) * (2 * s + 7),
            uz * uz * (len * len) <= z * z * (s * s) + (len * len) * (2 * s + 7),
    ;

    // compare against SCALE^2 * len^2
    assert((len + 1) * (len + 1) == len * len + 2 * len + 1) by (nonlinear_arith);
    lemma_mul_inequality(s, len, len);
    assert(s * s <= s * len <= len * len) by {
        lemma_mul_inequality(s, len, s);
        lemma_mul_is_commutative(len, s);
    }
    // lower: uu * len^2 >= len^2 * (s^2 - 6s - 21)
    assert(xx * (s * s) >= (len * len) * (s * s)) by (nonlinear_arith)
        requires
            xx >= sq * s,
            sq * s >= len * len,
            s == 1_000_000,
            len * len >= 0,
    ;
    // upper: xx * s^2 < len^2 * (s^2 + 6s)
    assert(xx * (s * s) < (len * len) * (s * s) + (len * len) * (6 * s)) by (nonlinear_arith)
        requires
            xx < sq * s + 3 * s,
            sq * s < (len + 1) * (len + 1),
            len >= s,
            s == 1_000_000,
    ;
    lemma_mul_strictly_positive(len, len);
    let low = s * s - 6 * s - 21;
    let high = s * s + 12 * s + 21;
    assert(uu >= low) by (nonlinear_arith)
        requires
            uu * (len * len) >= (len * len) * (s * s) - (len * len) * (6 * s + 21),
            len * len > 0,
            low == s * s - 6 * s - 21,
            s == 1_000_000,
    ;
    assert(uu <= high) by (nonlinear_arith)
        requires
            uu * (len * len) <= (len * len) * (s * s) + (len * len) * (6 * s) + (len * len) * (6
                * s + 21),
            len * len > 0,
            high == s * s + 12 * s + 21,
            s == 1_000_000,
    ;

    // quantize the three unit components back through fx_mul
    lemma_sq_term(ux);
    lemma_sq_term(uy);
    lemma_sq_term(uz);
    let q = Vec3::spec_squared_length(unit);
    assert(q == fx_mul(ux, ux) + fx_mul(uy, uy) + fx_mul(uz, uz));
    assert(s * q <= uu < s * q + 3 * s);
    assert(SCALE - 50 <= q <= SCALE + 50) by (nonlinear_arith)
        requires
            s * q <= uu < s * q + 3 * s,
            low <= uu <= high,
            low == s * s - 6 * s - 21,
            high == s * s + 12 * s + 21,
            s == 1_000_000,
            s == SCALE as int,
    ;
}

/// Adding two vectors and subtracting one addend again gives back the
/// other, whenever no component sum leaves the representable range.
pub proof fn lemma_add_sub_cancel(a: Vec3, b: Vec3)
    requires
        i64::MIN <= a.x + b.x <= i64::MAX,
        i64::MIN <= a.y + b.y <= i64::MAX,
        i64::MIN <= a.z + b.z <= i64::MAX,
    ensures
        Vec3::spec_sub(Vec3::spec_add(a, b), b) == a,
{
}

/// The dot product of a vector with itself is its squared length.
pub proof fn lemma_dot_self_is_squared_length(v: Vec3)
    ensures
        Vec3::spec_dot(v, v) == Vec3::spec_squared_length(v),
{
}

} // verus!
