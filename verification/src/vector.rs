//! 3-component fixed-point vectors, colours and rays.
//!
//! A `Vec3` is an immutable value of three fixed-point scalars.  A `Colour`
//! is a `Vec3` reused as a linear RGB triple whose product is component-wise.
//! Contracts state each component exactly through the spec-level fixed-point
//! operations of `crate::fixed`.

use vstd::prelude::*;

verus! {

use crate::fixed::{
    ONE, MUL_WIDE, MUL_NARROW, DIV_NUM, in_range, div_tz, mul_fx, div_fx, rad_mul_fx, sqrt_fx,
    abs_i, fx_mul, fx_div, fx_sqrt, rad_mul, lemma_isqrt, lemma_div_tz_abs, lemma_abs_mul,
    lemma_div_tz_exact,
};

/// Magnitude bound for vector components entering sums (keeps `i64` exact).
pub const BIG: i64 = 0x2000_0000_0000_0000;

/// Magnitude bound for vector components entering dot products.
pub const DOT_RANGE: i64 = 0x8_0000_0000;

/// Wider bound for one dot-product operand when the other is a direction.
pub const DOT_WIDE: i64 = 0x400_0000_0000;

/// Magnitude bound for vector components entering cross products.
pub const CROSS_RANGE: i64 = 0x4000_0000;

/// Magnitude bound for ray direction vectors: nominally unit length, with
/// generous slack for fixed-point rounding and short sums of scaled unit
/// vectors (64.0).
pub const DIR_RANGE: i64 = 0x40_0000;

/// Least accepted squared norm for normalisation (0.0625, i.e. |v| >= 0.25).
pub const NSQ_MIN: i64 = 4096;

#[derive(Clone, Copy, PartialEq, Eq, Structural, Debug)]
pub struct Vec3 {
    pub x: i64,
    pub y: i64,
    pub z: i64,
}

/// A colour is a vector reused as a linear, non-gamma RGB triple.
pub type Colour = Vec3;

/// All three components lie in `[-b, b]`.
pub open spec fn bounded(v: Vec3, b: int) -> bool {
    in_range(v.x as int, b) && in_range(v.y as int, b) && in_range(v.z as int, b)
}

/// All three components are nonnegative.
pub open spec fn nonneg(v: Vec3) -> bool {
    0 <= v.x && 0 <= v.y && 0 <= v.z
}

/// The exact fixed-point dot product.
pub open spec fn dot3(u: Vec3, v: Vec3) -> int {
    div_tz(u.x * v.x + u.y * v.y + u.z * v.z, ONE as int)
}

/// The exact fixed-point cross product, one component at a time.
pub open spec fn cross_x(u: Vec3, v: Vec3) -> int {
    div_tz(u.y * v.z - u.z * v.y, ONE as int)
}

pub open spec fn cross_y(u: Vec3, v: Vec3) -> int {
    div_tz(u.z * v.x - u.x * v.z, ONE as int)
}

pub open spec fn cross_z(u: Vec3, v: Vec3) -> int {
    div_tz(u.x * v.y - u.y * v.x, ONE as int)
}

/// The exact fixed-point norm: the rounded square root of the dot product.
pub open spec fn norm3(v: Vec3) -> int {
    sqrt_fx(dot3(v, v))
}

/// The vector is a unit vector up to the given rounding tolerance: its
/// squared norm lies within `tol` raw units of one.
pub open spec fn near_unit_to(v: Vec3, tol: int) -> bool {
    (ONE as int) - tol <= dot3(v, v) <= (ONE as int) + tol
}

/// The vector is a unit vector up to normalisation rounding (about one part
/// in a thousand).
pub open spec fn near_unit(v: Vec3) -> bool {
    near_unit_to(v, 48)
}

/// The unit vector along `v`: each component divided by the norm.
pub open spec fn unitv(v: Vec3) -> Vec3 {
    Vec3 {
        x: div_fx(v.x as int, norm3(v)) as i64,
        y: div_fx(v.y as int, norm3(v)) as i64,
        z: div_fx(v.z as int, norm3(v)) as i64,
    }
}

impl Vec3 {
    pub fn new(x: i64, y: i64, z: i64) -> (r: Vec3)
        ensures
            r == (Vec3 { x, y, z }),
    {
        Vec3 { x, y, z }
    }

    /// The zero vector (also the colour black).
    pub fn zero() -> (r: Vec3)
        ensures
            r == (Vec3 { x: 0i64, y: 0i64, z: 0i64 }),
    {
        Vec3 { x: 0, y: 0, z: 0 }
    }

    pub fn unit_x() -> (r: Vec3)
        ensures
            r == (Vec3 { x: ONE, y: 0i64, z: 0i64 }),
    {
        Vec3 { x: ONE, y: 0, z: 0 }
    }

    pub fn unit_y() -> (r: Vec3)
        ensures
            r == (Vec3 { x: 0i64, y: ONE, z: 0i64 }),
    {
        Vec3 { x: 0, y: ONE, z: 0 }
    }

    pub fn unit_z() -> (r: Vec3)
        ensures
            r == (Vec3 { x: 0i64, y: 0i64, z: ONE }),
    {
        Vec3 { x: 0, y: 0, z: ONE }
    }

    /// The colour white (1, 1, 1).
    pub fn white() -> (r: Vec3)
        ensures
            r == (Vec3 { x: ONE, y: ONE, z: ONE }),
    {
        Vec3 { x: ONE, y: ONE, z: ONE }
    }

    pub fn neg(self) -> (r: Vec3)
        requires
            bounded(self, BIG as int),
        ensures
            r.x == -self.x && r.y == -self.y && r.z == -self.z,
    {
        Vec3 { x: -self.x, y: -self.y, z: -self.z }
    }

    pub fn add(self, other: Vec3) -> (r: Vec3)
        requires
            bounded(self, BIG as int),
            bounded(other, BIG as int),
        ensures
            r.x == self.x + other.x && r.y == self.y + other.y && r.z == self.z + other.z,
    {
        Vec3 { x: self.x + other.x, y: self.y + other.y, z: self.z + other.z }
    }

    pub fn sub(self, other: Vec3) -> (r: Vec3)
        requires
            bounded(self, BIG as int),
            bounded(other, BIG as int),
        ensures
            r.x == self.x - other.x && r.y == self.y - other.y && r.z == self.z - other.z,
    {
        Vec3 { x: self.x - other.x, y: self.y - other.y, z: self.z - other.z }
    }

    /// Scales by a fixed-point factor, rounding each component toward zero.
    pub fn scale(self, k: i64) -> (r: Vec3)
        requires
            (in_range(k as int, MUL_WIDE as int) && bounded(self, MUL_NARROW as int)) || (
            in_range(k as int, crate::fixed::MUL_MID as int) && bounded(
                self,
                crate::fixed::MUL_MID as int,
            )),
        ensures
            r.x == mul_fx(k as int, self.x as int),
            r.y == mul_fx(k as int, self.y as int),
            r.z == mul_fx(k as int, self.z as int),
    {
        Vec3 { x: fx_mul(k, self.x), y: fx_mul(k, self.y), z: fx_mul(k, self.z) }
    }

    /// Divides by a fixed-point scalar, rounding each component toward zero.
    pub fn div_s(self, d: i64) -> (r: Vec3)
        requires
            d != 0,
            bounded(self, DIV_NUM as int),
        ensures
            r.x == div_fx(self.x as int, d as int),
            r.y == div_fx(self.y as int, d as int),
            r.z == div_fx(self.z as int, d as int),
    {
        Vec3 { x: fx_div(self.x, d), y: fx_div(self.y, d), z: fx_div(self.z, d) }
    }

    /// Component-wise (Hadamard) colour product, saturated at the radiance
    /// cap; this is the `Colour * Colour` operation.
    pub fn mul(self, other: Vec3) -> (r: Vec3)
        requires
            nonneg(self),
            nonneg(other),
        ensures
            r.x == rad_mul_fx(self.x as int, other.x as int),
            r.y == rad_mul_fx(self.y as int, other.y as int),
            r.z == rad_mul_fx(self.z as int, other.z as int),
            nonneg(r),
    {
        Vec3 {
            x: rad_mul(self.x, other.x),
            y: rad_mul(self.y, other.y),
            z: rad_mul(self.z, other.z),
        }
    }

    /// Scales a radiance value by a nonnegative factor, saturating at the
    /// radiance cap.
    pub fn scale_rad(self, k: i64) -> (r: Vec3)
        requires
            0 <= k,
            nonneg(self),
        ensures
            r.x == rad_mul_fx(k as int, self.x as int),
            r.y == rad_mul_fx(k as int, self.y as int),
            r.z == rad_mul_fx(k as int, self.z as int),
            nonneg(r),
    {
        Vec3 { x: rad_mul(k, self.x), y: rad_mul(k, self.y), z: rad_mul(k, self.z) }
    }

    pub fn norm_squared(self) -> (r: i64)
        requires
            bounded(self, DOT_RANGE as int),
        ensures
            r == dot3(self, self),
            0 <= r,
    {
        dot(self, self)
    }

    pub fn norm(self) -> (r: i64)
        requires
            bounded(self, DOT_RANGE as int),
        ensures
            r == norm3(self),
            0 <= r,
    {
        let ns = self.norm_squared();
        fx_sqrt(ns)
    }

    /// Normalises a vector whose squared norm is at least `NSQ_MIN`; the
    /// result of dividing by a too-short norm would be numerical garbage, so
    /// that is a contract violation rather than a logged warning.
    pub fn normalise(self) -> (r: Vec3)
        requires
            bounded(self, DOT_RANGE as int),
            dot3(self, self) >= NSQ_MIN as int,
        ensures
            r == unitv(self),
            r.x == div_fx(self.x as int, norm3(self)),
            r.y == div_fx(self.y as int, norm3(self)),
            r.z == div_fx(self.z as int, norm3(self)),
            bounded(r, 2 * ONE as int),
            near_unit(r),
    {
        let ns = self.norm_squared();
        let n = fx_sqrt(ns);
        proof {
            lemma_norm_bounds(self, ns as int, n as int);
            lemma_normalise_near_unit(self);
        }
        self.div_s(n)
    }
}

/// Each component of `v / norm(v)` has magnitude at most 2.0 once the
/// squared norm reaches `NSQ_MIN`, and the norm itself is positive.
proof fn lemma_norm_bounds(v: Vec3, ns: int, n: int)
    requires
        bounded(v, DOT_RANGE as int),
        ns == dot3(v, v),
        ns >= NSQ_MIN as int,
        n == sqrt_fx(ns),
    ensures
        n >= 16384,
        in_range(div_fx(v.x as int, n), 2 * ONE as int),
        in_range(div_fx(v.y as int, n), 2 * ONE as int),
        in_range(div_fx(v.z as int, n), 2 * ONE as int),
{
    let m = (ns * ONE) as nat;
    lemma_isqrt(m);
    assert(isq(m) >= 16384) by (nonlinear_arith)
        requires
            m >= 0x10000000,
            m < (isq(m) + 1) * (isq(m) + 1),
    ;
    let sum = v.x * v.x + v.y * v.y + v.z * v.z;
    lemma_sq_nonneg(v.x as int);
    lemma_sq_nonneg(v.y as int);
    lemma_sq_nonneg(v.z as int);
    assert(sum < (ns + 1) * (ONE as int)) by {
        vstd::arithmetic::div_mod::lemma_fundamental_div_mod(sum, ONE as int);
        vstd::arithmetic::div_mod::lemma_mod_bound(sum, ONE as int);
        assert(ns == sum / (ONE as int));
    }
    lemma_comp_ratio(v.x as int, sum, ns, n);
    lemma_comp_ratio(v.y as int, sum, ns, n);
    lemma_comp_ratio(v.z as int, sum, ns, n);
}

/// Abbreviation for the integer square root, used in the proofs below.
pub open spec fn isq(m: nat) -> nat {
    crate::fixed::isqrt(m)
}

proof fn lemma_sq_nonneg(x: int)
    by (nonlinear_arith)
    ensures
        x * x >= 0,
{
}

/// One component of the normalisation quotient is within 2.0.
pub proof fn lemma_comp_ratio(x: int, sum: int, ns: int, n: int)
    requires
        x * x <= sum,
        sum < (ns + 1) * (ONE as int),
        ns >= NSQ_MIN as int,
        n == isq((ns * ONE) as nat),
        n >= 16384,
    ensures
        in_range(div_fx(x, n), 2 * ONE as int),
{
    lemma_isqrt((ns * ONE) as nat);
    assert(x * x <= 4 * (n * n)) by (nonlinear_arith)
        requires
            x * x <= sum,
            sum < (ns + 1) * (ONE as int),
            ns * (ONE as int) < (n + 1) * (n + 1),
            n >= 16384,
    ;
    assert(abs_i(x) <= 2 * n) by (nonlinear_arith)
        requires
            x * x <= 4 * (n * n),
            n >= 0,
    ;
    // |x * ONE / n| <= 2 * n * ONE / n == 2 * ONE
    lemma_abs_mul(x, ONE as int);
    lemma_div_tz_abs(x * (ONE as int), n);
    assert(abs_i(x) * (ONE as int) <= (2 * n) * (ONE as int)) by (nonlinear_arith)
        requires
            abs_i(x) <= 2 * n,
    ;
    vstd::arithmetic::div_mod::lemma_div_is_ordered(abs_i(x) * (ONE as int), (2 * n) * (ONE as int), n);
    crate::fixed::lemma_div_tz_exact(2 * (ONE as int), n);
    assert((2 * (ONE as int)) * n == (2 * n) * (ONE as int)) by (nonlinear_arith);
}

/// One component of a normalisation quotient, bracketed by the exact ratio:
/// `n |u| <= |x| S < n (|u| + 1)`, squared.
proof fn lemma_unit_comp(x: int, n: int) -> (u: int)
    requires
        1 <= n,
    ensures
        u == div_fx(x, n),
        n * n * (u * u) <= (x * x) * ((ONE as int) * (ONE as int)),
        (x * x) * ((ONE as int) * (ONE as int)) < n * n * (u * u) + n * n * (2 * abs_i(u) + 1),
{
    let s = ONE as int;
    let u = div_fx(x, n);
    lemma_div_tz_abs(x * s, n);
    lemma_abs_mul(x, s);
    let m = abs_i(x) * s;
    vstd::arithmetic::div_mod::lemma_fundamental_div_mod(m, n);
    vstd::arithmetic::div_mod::lemma_mod_bound(m, n);
    let q = m / n;
    assert(abs_i(u) == q);
    assert(n * q <= m && m < n * (q + 1)) by (nonlinear_arith)
        requires
            m == n * q + m % n,
            0 <= m % n < n,
    ;
    assert(m >= 0) by (nonlinear_arith)
        requires
            m == abs_i(x) * s,
            abs_i(x) >= 0,
            s >= 0,
    ;
    assert((n * q) * (n * q) <= m * m) by (nonlinear_arith)
        requires
            0 <= n * q <= m,
    ;
    assert(m * m < (n * (q + 1)) * (n * (q + 1))) by (nonlinear_arith)
        requires
            0 <= m < n * (q + 1),
    ;
    assert((n * q) * (n * q) == n * n * (q * q)) by (nonlinear_arith);
    assert((n * (q + 1)) * (n * (q + 1)) == n * n * (q * q) + n * n * (2 * q + 1))
        by (nonlinear_arith);
    assert(abs_i(x) * abs_i(x) == x * x) by (nonlinear_arith);
    assert(m * m == (x * x) * (s * s)) by (nonlinear_arith)
        requires
            m == abs_i(x) * s,
            abs_i(x) * abs_i(x) == x * x,
    ;
    assert(q * q == u * u) by (nonlinear_arith)
        requires
            q == abs_i(u),
    ;
    u
}

/// Normalising any admissible vector yields a vector whose squared norm is
/// within a fixed small tolerance of one: at most 13 raw units below and
/// 48 above (about 0.001 in real terms).
pub proof fn lemma_normalise_near_unit(v: Vec3)
    requires
        bounded(v, DOT_RANGE as int),
        dot3(v, v) >= NSQ_MIN as int,
    ensures
        near_unit(unitv(v)),
{
    let s = ONE as int;
    let sum = v.x * v.x + v.y * v.y + v.z * v.z;
    let ns = dot3(v, v);
    assert(v.x * v.x >= 0 && v.y * v.y >= 0 && v.z * v.z >= 0) by (nonlinear_arith);
    assert(sum >= 0);
    vstd::arithmetic::div_mod::lemma_fundamental_div_mod(sum, s);
    vstd::arithmetic::div_mod::lemma_mod_bound(sum, s);
    assert(ns == sum / s);
    assert(s * ns <= sum < s * ns + s);
    let n = sqrt_fx(ns);
    lemma_isqrt((ns * s) as nat);
    assert(n * n <= ns * s < (n + 1) * (n + 1));
    assert(n >= 16384) by (nonlinear_arith)
        requires
            ns * s >= 268435456,
            ns * s < (n + 1) * (n + 1),
            n >= 0,
    ;
    let u1 = lemma_unit_comp(v.x as int, n);
    let u2 = lemma_unit_comp(v.y as int, n);
    let u3 = lemma_unit_comp(v.z as int, n);
    // Each quotient component is within 2.0 in magnitude.
    assert((ns + 1) * s == s * ns + s) by (nonlinear_arith);
    lemma_comp_ratio(v.x as int, sum, ns, n);
    lemma_comp_ratio(v.y as int, sum, ns, n);
    lemma_comp_ratio(v.z as int, sum, ns, n);
    assert(abs_i(u1) <= 2 * s && abs_i(u2) <= 2 * s && abs_i(u3) <= 2 * s);
    let usq = u1 * u1 + u2 * u2 + u3 * u3;
    // Summing the per-component brackets.
    assert(s * s * sum == (v.x * v.x) * (s * s) + (v.y * v.y) * (s * s) + (v.z * v.z) * (s * s))
        by (nonlinear_arith)
        requires
            sum == v.x * v.x + v.y * v.y + v.z * v.z,
    ;
    assert(n * n * usq == n * n * (u1 * u1) + n * n * (u2 * u2) + n * n * (u3 * u3))
        by (nonlinear_arith)
        requires
            usq == u1 * u1 + u2 * u2 + u3 * u3,
    ;
    assert(n * n * usq <= s * s * sum);
    let slack = n * n * (2 * abs_i(u1) + 1) + n * n * (2 * abs_i(u2) + 1) + n * n * (2 * abs_i(u3)
        + 1);
    assert(s * s * sum < n * n * usq + slack);
    assert(slack <= n * n * (12 * s + 3)) by (nonlinear_arith)
        requires
            slack == n * n * (2 * abs_i(u1) + 1) + n * n * (2 * abs_i(u2) + 1) + n * n * (2
                * abs_i(u3) + 1),
            abs_i(u1) <= 2 * s && abs_i(u2) <= 2 * s && abs_i(u3) <= 2 * s,
            n * n >= 0,
    ;
    // Upper bound: sum < n^2 + 2n + s, and the overshoot term is tiny.
    assert(sum < n * n + 2 * n + s) by (nonlinear_arith)
        requires
            sum < s * ns + s,
            n * n <= ns * s < (n + 1) * (n + 1),
            s * ns == ns * s,
    ;
    assert(s * s * (2 * n + s) <= 48 * s * (n * n)) by (nonlinear_arith)
        requires
            n >= 16384,
            s == 65536,
    ;
    assert(n * n * usq <= n * n * (s * s + 48 * s)) by (nonlinear_arith)
        requires
            n * n * usq <= s * s * sum,
            sum < n * n + 2 * n + s,
            s * s * (2 * n + s) <= 48 * s * (n * n),
            s == 65536,
            n >= 1,
    ;
    assert(usq <= s * s + 48 * s) by (nonlinear_arith)
        requires
            n * n * usq <= n * n * (s * s + 48 * s),
            n >= 1,
    ;
    // Lower bound: sum >= ns s >= n^2.
    assert(s * s * sum >= s * s * (n * n)) by (nonlinear_arith)
        requires
            sum >= s * ns,
            s * ns == ns * s,
            ns * s >= n * n,
            s >= 1,
    ;
    assert(n * n * usq > n * n * (s * s - 12 * s - 3)) by (nonlinear_arith)
        requires
            s * s * sum < n * n * usq + slack,
            slack <= n * n * (12 * s + 3),
            s * s * sum >= s * s * (n * n),
            n >= 1,
    ;
    assert(usq >= s * s - 12 * s - 2) by (nonlinear_arith)
        requires
            n * n * usq > n * n * (s * s - 12 * s - 3),
            n >= 1,
    ;
    // From the sum of squares to the fixed-point dot product.
    let w = unitv(v);
    assert(w.x as int == u1 && w.y as int == u2 && w.z as int == u3);
    assert(dot3(w, w) == div_tz(usq, s));
    assert(u1 * u1 >= 0 && u2 * u2 >= 0 && u3 * u3 >= 0) by (nonlinear_arith);
    assert(usq >= 0);
    assert(div_tz(usq, s) == usq / s);
    assert(usq / s <= (s * s + 48 * s) / s) by {
        vstd::arithmetic::div_mod::lemma_div_is_ordered(usq, s * s + 48 * s, s);
    }
    assert((s * s + 48 * s) / s == s + 48) by {
        assert(s * s + 48 * s == (s + 48) * s) by (nonlinear_arith);
        lemma_div_tz_exact(s + 48, s);
    }
    assert(usq / s >= (s * s - 12 * s - 2) / s) by {
        vstd::arithmetic::div_mod::lemma_div_is_ordered(s * s - 12 * s - 2, usq, s);
    }
    assert((s * s - 12 * s - 2) / s == s - 13) by {
        assert(s * s - 12 * s - 2 == (s - 13) * s + (s - 2)) by (nonlinear_arith);
        vstd::arithmetic::div_mod::lemma_fundamental_div_mod_converse(
            s * s - 12 * s - 2,
            s,
            s - 13,
            s - 2,
        );
    }
}

/// Dot product, exact per `dot3`.
pub fn dot(u: Vec3, v: Vec3) -> (r: i64)
    requires
        (bounded(u, DOT_RANGE as int) && bounded(v, DOT_RANGE as int)) || (bounded(
            u,
            DIR_RANGE as int,
        ) && bounded(v, DOT_WIDE as int)),
    ensures
        r == dot3(u, v),
        u == v ==> r >= 0,
{
    proof {
        if bounded(u, DOT_RANGE as int) && bounded(v, DOT_RANGE as int) {
            lemma_dot_bound(u, v, 0x8_0000_0000, 0x8_0000_0000);
        } else {
            lemma_dot_bound(u, v, 0x40_0000, 0x400_0000_0000);
        }
        if u == v {
            lemma_sq_nonneg(u.x as int);
            lemma_sq_nonneg(u.y as int);
            lemma_sq_nonneg(u.z as int);
            vstd::arithmetic::div_mod::lemma_div_pos_is_pos(
                u.x * u.x + u.y * u.y + u.z * u.z,
                ONE as int,
            );
        }
    }
    let p: i128 = (u.x as i128) * (v.x as i128) + (u.y as i128) * (v.y as i128)
        + (u.z as i128) * (v.z as i128);
    div_i128_one(p)
}

/// Each dot-product partial product is bounded by `ba * bb`, and the dot
/// product itself by `3 * ba * bb / ONE`.
pub proof fn lemma_dot_bound(u: Vec3, v: Vec3, ba: int, bb: int)
    requires
        bounded(u, ba),
        bounded(v, bb),
        0 <= ba,
        0 <= bb,
    ensures
        abs_i(u.x * v.x) <= ba * bb,
        abs_i(u.y * v.y) <= ba * bb,
        abs_i(u.z * v.z) <= ba * bb,
        abs_i(dot3(u, v)) <= (3 * (ba * bb)) / (ONE as int),
{
    lemma_abs_bound(u.x as int, v.x as int, ba, bb);
    lemma_abs_bound(u.y as int, v.y as int, ba, bb);
    lemma_abs_bound(u.z as int, v.z as int, ba, bb);
    let sum = u.x * v.x + u.y * v.y + u.z * v.z;
    lemma_div_tz_abs(sum, ONE as int);
    vstd::arithmetic::div_mod::lemma_div_is_ordered(abs_i(sum), 3 * (ba * bb), ONE as int);
}

proof fn lemma_abs_bound(a: int, b: int, da: int, db: int)
    requires
        in_range(a, da),
        in_range(b, db),
        0 <= da,
        0 <= db,
    ensures
        abs_i(a * b) <= da * db,
{
    lemma_abs_mul(a, b);
    assert(abs_i(a) * abs_i(b) <= da * db) by (nonlinear_arith)
        requires
            0 <= abs_i(a) <= da,
            0 <= abs_i(b) <= db,
    ;
}

/// Divides a sum of partial products by `ONE`, truncating toward zero.
fn div_i128_one(p: i128) -> (r: i64)
    requires
        in_range(abs_i(p as int), 0x100_0000_0000_0000_0000),
    ensures
        r == div_tz(p as int, ONE as int),
{
    proof {
        lemma_div_tz_abs(p as int, ONE as int);
        vstd::arithmetic::div_mod::lemma_div_is_ordered(
            abs_i(p as int),
            0x100_0000_0000_0000_0000,
            ONE as int,
        );
    }
    if p >= 0 {
        let q: i128 = ((p as u128) / 65536) as i128;
        q as i64
    } else {
        let m: u128 = (-p) as u128;
        let q: u128 = m / 65536;
        -(q as i64)
    }
}

/// Each cross-product component is bounded by `2 * ba * bb / ONE`.
pub proof fn lemma_cross_bound(u: Vec3, v: Vec3, ba: int, bb: int)
    requires
        bounded(u, ba),
        bounded(v, bb),
        0 <= ba,
        0 <= bb,
    ensures
        abs_i(cross_x(u, v)) <= (2 * (ba * bb)) / (ONE as int),
        abs_i(cross_y(u, v)) <= (2 * (ba * bb)) / (ONE as int),
        abs_i(cross_z(u, v)) <= (2 * (ba * bb)) / (ONE as int),
{
    lemma_abs_bound(u.y as int, v.z as int, ba, bb);
    lemma_abs_bound(u.z as int, v.y as int, ba, bb);
    lemma_abs_bound(u.z as int, v.x as int, ba, bb);
    lemma_abs_bound(u.x as int, v.z as int, ba, bb);
    lemma_abs_bound(u.x as int, v.y as int, ba, bb);
    lemma_abs_bound(u.y as int, v.x as int, ba, bb);
    lemma_div_tz_abs(u.y * v.z - u.z * v.y, ONE as int);
    lemma_div_tz_abs(u.z * v.x - u.x * v.z, ONE as int);
    lemma_div_tz_abs(u.x * v.y - u.y * v.x, ONE as int);
    vstd::arithmetic::div_mod::lemma_div_is_ordered(
        abs_i(u.y * v.z - u.z * v.y),
        2 * (ba * bb),
        ONE as int,
    );
    vstd::arithmetic::div_mod::lemma_div_is_ordered(
        abs_i(u.z * v.x - u.x * v.z),
        2 * (ba * bb),
        ONE as int,
    );
    vstd::arithmetic::div_mod::lemma_div_is_ordered(
        abs_i(u.x * v.y - u.y * v.x),
        2 * (ba * bb),
        ONE as int,
    );
}

/// Cross product, exact per `cross_x`/`cross_y`/`cross_z`.
pub fn cross(u: Vec3, v: Vec3) -> (r: Vec3)
    requires
        bounded(u, CROSS_RANGE as int),
        bounded(v, CROSS_RANGE as int),
    ensures
        r.x == cross_x(u, v),
        r.y == cross_y(u, v),
        r.z == cross_z(u, v),
{
    proof {
        let d = CROSS_RANGE as int;
        lemma_abs_bound(u.y as int, v.z as int, d, d);
        lemma_abs_bound(u.z as int, v.y as int, d, d);
        lemma_abs_bound(u.z as int, v.x as int, d, d);
        lemma_abs_bound(u.x as int, v.z as int, d, d);
        lemma_abs_bound(u.x as int, v.y as int, d, d);
        lemma_abs_bound(u.y as int, v.x as int, d, d);
    }
    let x: i128 = (u.y as i128) * (v.z as i128) - (u.z as i128) * (v.y as i128);
    let y: i128 = (u.z as i128) * (v.x as i128) - (u.x as i128) * (v.z as i128);
    let z: i128 = (u.x as i128) * (v.y as i128) - (u.y as i128) * (v.x as i128);
    Vec3 { x: div_i128_one(x), y: div_i128_one(y), z: div_i128_one(z) }
}

/// The mirror direction `u - 2 (u . n) n`, exact per `dot3` and `mul_fx`.
pub fn reflect(u: Vec3, n: Vec3) -> (r: Vec3)
    requires
        bounded(u, DIR_RANGE as int),
        bounded(n, DIR_RANGE as int),
    ensures
        r.x == u.x - mul_fx(2 * dot3(u, n), n.x as int),
        r.y == u.y - mul_fx(2 * dot3(u, n), n.y as int),
        r.z == u.z - mul_fx(2 * dot3(u, n), n.z as int),
{
    let d = dot(u, n);
    proof {
        lemma_dot_bound(u, n, 4194304, 4194304);
        crate::fixed::lemma_mul_fx_bound(
            2 * dot3(u, n),
            n.x as int,
            0x6000_0000_0000,
            DIR_RANGE as int,
        );
        crate::fixed::lemma_mul_fx_bound(
            2 * dot3(u, n),
            n.y as int,
            0x6000_0000_0000,
            DIR_RANGE as int,
        );
        crate::fixed::lemma_mul_fx_bound(
            2 * dot3(u, n),
            n.z as int,
            0x6000_0000_0000,
            DIR_RANGE as int,
        );
    }
    u.sub(n.scale(2 * d))
}

/// A ray: origin plus direction; the direction is not normalised by the type
/// itself, call sites normalise.
#[derive(Clone, Copy, PartialEq, Eq, Structural, Debug)]
pub struct Ray {
    pub origin: Vec3,
    pub direction: Vec3,
}

impl Ray {
    pub fn new(origin: Vec3, direction: Vec3) -> (r: Ray)
        ensures
            r == (Ray { origin, direction }),
    {
        Ray { origin, direction }
    }

    /// The point `origin + dist * direction`.
    pub fn eval(self, dist: i64) -> (r: Vec3)
        requires
            in_range(dist as int, 0x1_0000_0000),
            bounded(self.direction, MUL_NARROW as int),
            bounded(self.origin, BIG as int),
        ensures
            r.x == self.origin.x + mul_fx(dist as int, self.direction.x as int),
            r.y == self.origin.y + mul_fx(dist as int, self.direction.y as int),
            r.z == self.origin.z + mul_fx(dist as int, self.direction.z as int),
    {
        proof {
            crate::fixed::lemma_mul_fx_bound(
                dist as int,
                self.direction.x as int,
                0x1_0000_0000,
                MUL_NARROW as int,
            );
            crate::fixed::lemma_mul_fx_bound(
                dist as int,
                self.direction.y as int,
                0x1_0000_0000,
                MUL_NARROW as int,
            );
            crate::fixed::lemma_mul_fx_bound(
                dist as int,
                self.direction.z as int,
                0x1_0000_0000,
                MUL_NARROW as int,
            );
        }
        self.origin.add(self.direction.scale(dist))
    }
}

} // verus!
