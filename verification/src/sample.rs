//! Direction sampling helpers: uniform and cosine-weighted hemisphere
//! sampling and orthonormal-basis construction.
//!
//! Sampled directions are nominally unit vectors; the contracts state the
//! bounds and orientation facts the integrator relies on, since the values
//! themselves depend on the random stream.

use vstd::prelude::*;

verus! {

use crate::fixed::{
    ONE, in_range, div_tz, mul_fx, div_fx, fx_mul, fx_div, fx_sqrt, fx_max0, abs_i,
    lemma_mul_fx_bound, lemma_div_fx_bound, lemma_sqrt_fx_le, lemma_div_tz_neg, lemma_div_tz_abs,
};
use crate::vector::{
    Vec3, bounded, dot3, dot, near_unit_to, unitv, norm3, DIR_RANGE, NSQ_MIN,
};
use crate::rng::Rng;

/// A point on the unit circle: a cosine/sine pair drawn by rejection from
/// the square, then normalised.  Falls back to the x axis if every try
/// lands in the rejection region.
pub fn sample_circle(rng: &mut Rng) -> (r: (i64, i64))
    ensures
        in_range(r.0 as int, 2 * ONE as int),
        in_range(r.1 as int, 2 * ONE as int),
        near_unit_to(Vec3 { x: r.0, y: r.1, z: 0i64 }, 48),
{
    let mut tries: usize = 0;
    while tries < 16
        invariant
            tries <= 16,
        decreases 16 - tries,
    {
        let ux = rng.next_unit();
        let uy = rng.next_unit();
        let v = Vec3::new(2 * ux - ONE, 2 * uy - ONE, 0);
        let ns = v.norm_squared();
        if ns >= NSQ_MIN && ns <= ONE {
            let w = v.normalise();
            proof {
                lemma_flat_unit(v, w);
            }
            return (w.x, w.y);
        }
        tries = tries + 1;
    }
    proof {
        lemma_axis_pair();
    }
    (ONE, 0)
}

/// Normalising a vector with zero third component keeps it zero, so the
/// first two components alone carry the near-unit norm.
proof fn lemma_flat_unit(v: Vec3, w: Vec3)
    requires
        v.z == 0,
        bounded(v, crate::vector::DOT_RANGE as int),
        dot3(v, v) >= NSQ_MIN as int,
        w == unitv(v),
        near_unit_to(w, 48),
    ensures
        w.z == 0,
        near_unit_to(Vec3 { x: w.x, y: w.y, z: 0i64 }, 48),
{
    let n = norm3(v);
    crate::fixed::lemma_isqrt((dot3(v, v) * (ONE as int)) as nat);
    assert(n >= 1) by (nonlinear_arith)
        requires
            dot3(v, v) * (ONE as int) >= 268435456,
            dot3(v, v) * (ONE as int) < (n + 1) * (n + 1),
            n >= 0,
    ;
    assert((0int) * (ONE as int) == 0) by (nonlinear_arith);
    vstd::arithmetic::div_mod::lemma_div_of0(n);
    assert(div_fx(0, n) == 0);
    assert(w.z == 0);
    assert((Vec3 { x: w.x, y: w.y, z: 0i64 }) == w);
}

/// The x-axis pair is exactly unit length.
proof fn lemma_axis_pair()
    ensures
        near_unit_to(Vec3 { x: ONE, y: 0i64, z: 0i64 }, 48),
{
    let p = Vec3 { x: ONE, y: 0i64, z: 0i64 };
    assert(p.x * p.x == 65536int * 65536 && p.y * p.y == 0 && p.z * p.z == 0) by (nonlinear_arith)
        requires
            p.x == 65536 && p.y == 0 && p.z == 0,
    ;
    crate::fixed::lemma_div_tz_exact(65536, 65536);
    assert(dot3(p, p) == 65536);
}

/// The raw squared norm of a near-unit flat pair, bracketed.
proof fn lemma_pair_cc(c: int, s: int)
    requires
        near_unit_to(
            Vec3 { x: c as i64, y: s as i64, z: 0i64 },
            48,
        ),
        in_range(c, 131072),
        in_range(s, 131072),
    ensures
        (65536 - 48) * 65536 <= c * c + s * s < (65536 + 49) * 65536,
{
    let p = Vec3 { x: c as i64, y: s as i64, z: 0i64 };
    let sum = p.x * p.x + p.y * p.y + p.z * p.z;
    assert(p.x * p.x == c * c && p.y * p.y == s * s && p.z * p.z == 0) by (nonlinear_arith)
        requires
            p.x == c && p.y == s && p.z == 0,
    ;
    assert(c * c >= 0 && s * s >= 0) by (nonlinear_arith);
    assert(div_tz(sum, ONE as int) == sum / 65536);
    vstd::arithmetic::div_mod::lemma_fundamental_div_mod(sum, 65536);
    vstd::arithmetic::div_mod::lemma_mod_bound(sum, 65536);
    assert(sum == 65536 * (sum / 65536) + sum % 65536);
    assert((65536 - 48) * 65536 <= sum < (65536 + 49) * 65536) by (nonlinear_arith)
        requires
            sum == 65536 * (sum / 65536) + sum % 65536,
            0 <= sum % 65536 < 65536,
            65536 - 48 <= sum / 65536 <= 65536 + 48,
    ;
}

/// One scaled component of a sampled vector, with its square bracketed by
/// the exact product: `rx^2 S^2 <= c^2 rl^2 < (rx^2 + 4S + 1) S^2`.
proof fn lemma_scaled_sq(c: int, rl: int) -> (rx: int)
    requires
        in_range(c, 131072),
        0 <= rl <= 65536,
    ensures
        rx == mul_fx(c, rl),
        in_range(rx, 131072),
        (rx * rx) * 4294967296 <= (c * c) * (rl * rl),
        (c * c) * (rl * rl) < (rx * rx) * 4294967296 + 262145 * 4294967296,
{
    let rx = mul_fx(c, rl);
    lemma_div_tz_abs(c * rl, ONE as int);
    crate::fixed::lemma_abs_mul(c, rl);
    assert(abs_i(rl) == rl);
    let m = abs_i(c) * rl;
    assert(m == abs_i(c * rl));
    assert(0 <= m <= 131072 * 65536) by (nonlinear_arith)
        requires
            0 <= abs_i(c) <= 131072,
            0 <= rl <= 65536,
            m == abs_i(c) * rl,
    ;
    vstd::arithmetic::div_mod::lemma_fundamental_div_mod(m, 65536);
    vstd::arithmetic::div_mod::lemma_mod_bound(m, 65536);
    let q = m / 65536;
    assert(abs_i(rx) == q);
    vstd::arithmetic::div_mod::lemma_div_is_ordered(m, 131072int * 65536, 65536);
    assert((131072int * 65536) / 65536 == 131072int);
    assert(65536 * q <= m && m < 65536 * (q + 1)) by (nonlinear_arith)
        requires
            m == 65536 * q + m % 65536,
            0 <= m % 65536 < 65536,
    ;
    assert((65536 * q) * (65536 * q) <= m * m) by (nonlinear_arith)
        requires
            0 <= 65536 * q <= m,
    ;
    assert(m * m < (65536 * (q + 1)) * (65536 * (q + 1))) by (nonlinear_arith)
        requires
            0 <= m < 65536 * (q + 1),
    ;
    assert((65536 * q) * (65536 * q) == (q * q) * 4294967296) by (nonlinear_arith);
    assert((65536 * (q + 1)) * (65536 * (q + 1)) == (q * q) * 4294967296 + (2 * q + 1)
        * 4294967296) by (nonlinear_arith);
    assert((2 * q + 1) * 4294967296 <= 262145 * 4294967296) by (nonlinear_arith)
        requires
            q <= 131072,
    ;
    assert(abs_i(c) * abs_i(c) == c * c) by (nonlinear_arith);
    assert(m * m == (c * c) * (rl * rl)) by (nonlinear_arith)
        requires
            m == abs_i(c) * rl,
            abs_i(c) * abs_i(c) == c * c,
            0 <= rl,
    ;
    assert(q * q == rx * rx) by (nonlinear_arith)
        requires
            q == abs_i(rx),
    ;
    rx
}

/// The norm bracket of a sampled vector `(c rl, s rl, z)`: when the pair
/// `(c, s)` is near unit, `rl` is the rounded square root of `A`, `z` the
/// rounded square root of `B`, and `A + B` is one (squared, in raw units),
/// the assembled vector's squared norm is within 64 raw units of one.
proof fn lemma_sample_norm(c: int, s: int, rl: int, z: int, pa: int, pb: int)
    requires
        in_range(c, 131072),
        in_range(s, 131072),
        (65536 - 48) * 65536 <= c * c + s * s < (65536 + 49) * 65536,
        0 <= rl <= 65536,
        0 <= z <= 65536,
        pa - 196608 <= rl * rl <= pa,
        0 <= pa <= 4294967296,
        pb - 196608 <= z * z <= pb,
        0 <= pb,
        4294967296 <= pa + pb <= 4294967296 + 65536,
    ensures
        in_range(mul_fx(c, rl), 131072),
        in_range(mul_fx(s, rl), 131072),
        65536 - 63 <= div_tz(
            mul_fx(c, rl) * mul_fx(c, rl) + mul_fx(s, rl) * mul_fx(s, rl) + z * z,
            ONE as int,
        ) <= 65536 + 50,
{
    let rx = lemma_scaled_sq(c, rl);
    let ry = lemma_scaled_sq(s, rl);
    let cc = c * c + s * s;
    let rr = rl * rl;
    let total = rx * rx + ry * ry + z * z;
    assert(cc * rr == (c * c) * rr + (s * s) * rr) by (nonlinear_arith)
        requires
            cc == c * c + s * s,
    ;
    // Upper bound.
    assert(cc * rr <= cc * pa) by (nonlinear_arith)
        requires
            0 <= cc,
            rr <= pa,
    ;
    assert(cc * pa <= ((65536 + 49) * 65536) * pa) by (nonlinear_arith)
        requires
            cc <= (65536 + 49) * 65536,
            0 <= pa,
    ;
    assert(total * 4294967296 <= 4298178560 * pa + pb * 4294967296) by {
        assert(total * 4294967296 == (rx * rx) * 4294967296 + (ry * ry) * 4294967296 + (z * z)
            * 4294967296) by (nonlinear_arith)
            requires
                total == rx * rx + ry * ry + z * z,
        ;
        assert((z * z) * 4294967296 <= pb * 4294967296) by (nonlinear_arith)
            requires
                z * z <= pb,
        ;
    }
    assert(4298178560 * pa + pb * 4294967296 <= 4294967296 * (pa + pb) + 3211264 * pa)
        by (nonlinear_arith);
    assert(4294967296 * (pa + pb) + 3211264 * pa <= 4294967296 * 4295032832 + 3211264
        * 4294967296) by (nonlinear_arith)
        requires
            pa + pb <= 4295032832,
            0 <= pa <= 4294967296,
    ;
    assert(total * 4294967296 <= 4298244096 * 4294967296) by (nonlinear_arith)
        requires
            total * 4294967296 <= 4294967296 * 4295032832 + 3211264 * 4294967296,
    ;
    assert(total <= 4298244096) by (nonlinear_arith)
        requires
            total * 4294967296 <= 4298244096 * 4294967296,
    ;
    // Lower bound.
    assert(cc * rr >= 4291821568 * rr) by (nonlinear_arith)
        requires
            cc >= 4291821568,
            0 <= rr,
    ;
    assert(4291821568 * rr >= 4291821568 * (pa - 196608)) by (nonlinear_arith)
        requires
            rr >= pa - 196608,
    ;
    assert(4291821568 * (pa - 196608) >= 4294967296 * pa - 3145728 * 4294967296 - 196608
        * 4294967296) by (nonlinear_arith)
        requires
            pa <= 4294967296,
    ;
    assert((z * z) * 4294967296 >= (pb - 196608) * 4294967296) by (nonlinear_arith)
        requires
            z * z >= pb - 196608,
    ;
    assert((rx * rx) * 4294967296 > (c * c) * rr - 262145 * 4294967296);
    assert((ry * ry) * 4294967296 > (s * s) * rr - 262145 * 4294967296);
    assert(total * 4294967296 > cc * rr - 524290 * 4294967296 + (z * z) * 4294967296)
        by (nonlinear_arith)
        requires
            total == rx * rx + ry * ry + z * z,
            (rx * rx) * 4294967296 > (c * c) * rr - 262145 * 4294967296,
            (ry * ry) * 4294967296 > (s * s) * rr - 262145 * 4294967296,
            cc * rr == (c * c) * rr + (s * s) * rr,
    ;
    assert(total * 4294967296 > 4294967296 * (pa + pb) - 4063234 * 4294967296)
        by (nonlinear_arith)
        requires
            total * 4294967296 > cc * rr - 524290 * 4294967296 + (z * z) * 4294967296,
            cc * rr >= 4294967296 * pa - 3145728 * 4294967296 - 196608 * 4294967296,
            (z * z) * 4294967296 >= (pb - 196608) * 4294967296,
    ;
    assert(total * 4294967296 > (4294967296 - 4063234) * 4294967296) by (nonlinear_arith)
        requires
            total * 4294967296 > 4294967296 * (pa + pb) - 4063234 * 4294967296,
            pa + pb >= 4294967296,
    ;
    assert(total > 4290904062) by (nonlinear_arith)
        requires
            total * 4294967296 > 4290904062 * 4294967296,
    ;
    // From the squared-norm bracket to the fixed-point dot product.
    assert(div_tz(total, ONE as int) == total / 65536);
    vstd::arithmetic::div_mod::lemma_div_is_ordered(total, 4298244096, 65536);
    assert(4298244096int / 65536 == 65536 + 50) by {
        crate::fixed::lemma_div_tz_exact(65586, 65536);
        assert(65586int * 65536 == 4298244096) by (nonlinear_arith);
    }
    vstd::arithmetic::div_mod::lemma_div_is_ordered(4290904063, total, 65536);
    assert(4290904063int / 65536 == 65536 - 63) by {
        assert(4290904063int == 65473 * 65536 + 65535) by (nonlinear_arith);
        vstd::arithmetic::div_mod::lemma_fundamental_div_mod_converse(
            4290904063,
            65536,
            65473,
            65535,
        );
    }
}

/// A random vector on the unit hemisphere around the positive z axis: the
/// result is near unit length whatever the stream produced.
pub fn random_vector(rng: &mut Rng) -> (r: Vec3)
    ensures
        bounded(r, 2 * ONE as int),
        0 <= r.z < ONE,
        near_unit_to(r, 64),
{
    let u1 = rng.next_unit();
    let u1sq = fx_mul(u1, u1);
    proof {
        lemma_mul_fx_bound(u1 as int, u1 as int, 65536, 65536);
        assert(mul_fx(u1 as int, u1 as int) >= 0) by {
            crate::fixed::lemma_div_tz_abs((u1 as int) * (u1 as int), ONE as int);
            assert((u1 as int) * (u1 as int) >= 0) by (nonlinear_arith);
        }
    }
    let rsq = ONE - u1sq;
    let rlen = fx_sqrt(rsq);
    proof {
        lemma_sqrt_fx_le(rsq as int, 65536);
    }
    let cs = sample_circle(rng);
    proof {
        lemma_mul_fx_bound(cs.0 as int, rlen as int, 131072, 65536);
        lemma_mul_fx_bound(cs.1 as int, rlen as int, 131072, 65536);
        lemma_pair_cc(cs.0 as int, cs.1 as int);
        crate::fixed::lemma_isqrt(((rsq as int) * 65536) as nat);
        assert(rlen <= 65536) by (nonlinear_arith)
            requires
                (rlen as int) * (rlen as int) <= (rsq as int) * 65536,
                rsq <= 65536,
                rlen >= 0,
        ;
        let pa = (rsq as int) * 65536;
        assert((rlen as int) * (rlen as int) >= pa - 196608) by (nonlinear_arith)
            requires
                pa < ((rlen as int) + 1) * ((rlen as int) + 1),
                0 <= rlen as int <= 65536,
        ;
        let pb = (u1 as int) * (u1 as int);
        vstd::arithmetic::div_mod::lemma_fundamental_div_mod(pb, 65536);
        vstd::arithmetic::div_mod::lemma_mod_bound(pb, 65536);
        assert(u1sq as int == pb / 65536);
        assert(4294967296 <= pa + pb <= 4294967296 + 65536) by (nonlinear_arith)
            requires
                pa == (65536 - pb / 65536) * 65536,
                pb == 65536 * (pb / 65536) + pb % 65536,
                0 <= pb % 65536 < 65536,
        ;
        assert(0 <= pa <= 4294967296) by (nonlinear_arith)
            requires
                pa == (rsq as int) * 65536,
                0 <= rsq <= 65536,
        ;
        assert(pb >= 0) by (nonlinear_arith)
            requires
                pb == (u1 as int) * (u1 as int),
        ;
        lemma_sample_norm(cs.0 as int, cs.1 as int, rlen as int, u1 as int, pa, pb);
    }
    let out = Vec3::new(fx_mul(cs.0, rlen), fx_mul(cs.1, rlen), u1);
    proof {
        lemma_assembled_norm(out, cs.0 as int, cs.1 as int, rlen as int, u1 as int);
    }
    out
}

/// Transfers the integer norm bracket to the assembled vector.
proof fn lemma_assembled_norm(out: Vec3, c: int, s: int, rl: int, z: int)
    requires
        out.x as int == mul_fx(c, rl),
        out.y as int == mul_fx(s, rl),
        out.z as int == z,
        65536 - 63 <= div_tz(
            mul_fx(c, rl) * mul_fx(c, rl) + mul_fx(s, rl) * mul_fx(s, rl) + z * z,
            ONE as int,
        ) <= 65536 + 50,
    ensures
        near_unit_to(out, 64),
{
    assert(out.x * out.x == mul_fx(c, rl) * mul_fx(c, rl) && out.y * out.y == mul_fx(s, rl)
        * mul_fx(s, rl) && out.z * out.z == z * z) by (nonlinear_arith)
        requires
            out.x as int == mul_fx(c, rl),
            out.y as int == mul_fx(s, rl),
            out.z as int == z,
    ;
}

/// Negating a vector negates its dot products.
pub proof fn lemma_dot_neg(v: Vec3, u: Vec3, w: Vec3)
    requires
        w.x == -v.x && w.y == -v.y && w.z == -v.z,
    ensures
        dot3(w, u) == -dot3(v, u),
{
    assert(w.x * u.x == -(v.x * u.x)) by (nonlinear_arith)
        requires w.x == -v.x;
    assert(w.y * u.y == -(v.y * u.y)) by (nonlinear_arith)
        requires w.y == -v.y;
    assert(w.z * u.z == -(v.z * u.z)) by (nonlinear_arith)
        requires w.z == -v.z;
    lemma_div_tz_neg(v.x * u.x + v.y * u.y + v.z * u.z, ONE as int);
}

/// A random vector on the unit hemisphere containing `u`: a hemisphere
/// sample flipped onto `u`'s side.
pub fn random_hemisphere(u: Vec3, rng: &mut Rng) -> (r: Vec3)
    requires
        bounded(u, DIR_RANGE as int),
    ensures
        bounded(r, 2 * ONE as int),
        dot3(r, u) >= 0,
        near_unit_to(r, 64),
{
    let v = random_vector(rng);
    let d = dot(u, v);
    if d >= 0 {
        proof {
            lemma_dot_swap(v, u);
        }
        v
    } else {
        let w = v.neg();
        proof {
            lemma_dot_swap(v, u);
            lemma_dot_neg(v, u, w);
            lemma_dot_neg(w, w, v);
            assert(dot3(v, w) == dot3(w, v)) by {
                lemma_dot_swap(v, w);
            }
            assert(dot3(w, w) == dot3(v, v)) by {
                lemma_dot_neg(v, w, w);
                lemma_dot_swap(v, w);
                lemma_dot_neg(v, v, w);
            }
        }
        w
    }
}

/// The dot product is symmetric.
pub proof fn lemma_dot_swap(v: Vec3, u: Vec3)
    ensures
        dot3(v, u) == dot3(u, v),
{
    assert(v.x * u.x == u.x * v.x) by (nonlinear_arith);
    assert(v.y * u.y == u.y * v.y) by (nonlinear_arith);
    assert(v.z * u.z == u.z * v.z) by (nonlinear_arith);
}

/// Cosine-weighted sample on the unit hemisphere around the positive z
/// axis: the result is near unit length whatever the stream produced.
pub fn random_cosine(rng: &mut Rng) -> (r: Vec3)
    ensures
        bounded(r, 2 * ONE as int),
        0 <= r.z <= ONE,
        near_unit_to(r, 64),
{
    let u1 = rng.next_unit();
    let rlen = fx_sqrt(u1);
    proof {
        lemma_sqrt_fx_le(u1 as int, 65536);
    }
    let cs = sample_circle(rng);
    let zz = fx_sqrt(fx_max0(ONE - u1));
    proof {
        lemma_sqrt_fx_le((ONE - u1) as int, 65536);
        lemma_mul_fx_bound(cs.0 as int, rlen as int, 131072, 65536);
        lemma_mul_fx_bound(cs.1 as int, rlen as int, 131072, 65536);
        lemma_pair_cc(cs.0 as int, cs.1 as int);
        let pa = (u1 as int) * 65536;
        let pb = (65536 - u1 as int) * 65536;
        crate::fixed::lemma_isqrt(((u1 as int) * 65536) as nat);
        crate::fixed::lemma_isqrt((((ONE - u1) as int) * 65536) as nat);
        assert(rlen <= 65536 && zz <= 65536) by (nonlinear_arith)
            requires
                (rlen as int) * (rlen as int) <= pa,
                (zz as int) * (zz as int) <= pb,
                pa == (u1 as int) * 65536,
                pb == (65536 - u1 as int) * 65536,
                0 <= u1 < 65536,
                rlen >= 0,
                zz >= 0,
        ;
        assert((rlen as int) * (rlen as int) >= pa - 196608) by (nonlinear_arith)
            requires
                pa < ((rlen as int) + 1) * ((rlen as int) + 1),
                0 <= rlen as int <= 65536,
        ;
        assert((zz as int) * (zz as int) >= pb - 196608) by (nonlinear_arith)
            requires
                pb < ((zz as int) + 1) * ((zz as int) + 1),
                0 <= zz as int <= 65536,
        ;
        assert(pa + pb == 4294967296 && 0 <= pa <= 4294967296 && 0 <= pb) by (nonlinear_arith)
            requires
                pa == (u1 as int) * 65536,
                pb == (65536 - u1 as int) * 65536,
                0 <= u1 < 65536,
        ;
        lemma_sample_norm(cs.0 as int, cs.1 as int, rlen as int, zz as int, pa, pb);
    }
    let out = Vec3::new(fx_mul(cs.0, rlen), fx_mul(cs.1, rlen), zz);
    proof {
        lemma_assembled_norm(out, cs.0 as int, cs.1 as int, rlen as int, zz as int);
    }
    out
}

/// The sign (+1 or -1) used by the basis construction; zero counts as
/// positive, as the scalar sign convention has it.
pub open spec fn onb_sign(u: Vec3) -> int {
    if u.z >= 0 {
        1int
    } else {
        -1int
    }
}

/// The shared divisor term of the basis construction.
pub open spec fn onb_a(u: Vec3) -> int {
    div_fx(-ONE as int, onb_sign(u) * (ONE as int) + u.z)
}

/// The shared product term of the basis construction.
pub open spec fn onb_b(u: Vec3) -> int {
    mul_fx(mul_fx(u.x as int, u.y as int), onb_a(u))
}

/// The first basis completion vector, as a value.
pub open spec fn onb_v(u: Vec3) -> Vec3 {
    Vec3 {
        x: (ONE + onb_sign(u) * mul_fx(mul_fx(u.x as int, u.x as int), onb_a(u))) as i64,
        y: (onb_sign(u) * onb_b(u)) as i64,
        z: (-(onb_sign(u) * u.x)) as i64,
    }
}

/// The second basis completion vector, as a value.
pub open spec fn onb_w(u: Vec3) -> Vec3 {
    Vec3 {
        x: onb_b(u) as i64,
        y: (onb_sign(u) * (ONE as int) + mul_fx(mul_fx(u.y as int, u.y as int), onb_a(u))) as i64,
        z: (-u.y) as i64,
    }
}

/// From one (unit) vector `u`, two vectors completing an orthonormal basis,
/// built without divisions by anything near zero.
pub fn onb(u: Vec3) -> (r: (Vec3, Vec3))
    requires
        bounded(u, 2 * ONE as int),
    ensures
        r.0 == onb_v(u),
        r.1 == onb_w(u),
        r.0.x == ONE + onb_sign(u) * mul_fx(mul_fx(u.x as int, u.x as int), onb_a(u)),
        r.0.y == onb_sign(u) * onb_b(u),
        r.0.z == -(onb_sign(u) * u.x),
        r.1.x == onb_b(u),
        r.1.y == onb_sign(u) * (ONE as int) + mul_fx(mul_fx(u.y as int, u.y as int), onb_a(u)),
        r.1.z == -u.y,
        bounded(r.0, 8 * ONE as int),
        bounded(r.1, 8 * ONE as int),
{
    let spos = u.z >= 0;
    let denom = if spos {
        ONE + u.z
    } else {
        -ONE + u.z
    };
    let a = fx_div(-ONE, denom);
    proof {
        lemma_div_fx_bound(-ONE as int, denom as int, 65536);
        assert(abs_i(-ONE as int) == 65536);
        assert((65536 * 65536) / 65536 == 65536int);
        assert(in_range(a as int, 65536));
    }
    let xx = fx_mul(u.x, u.x);
    let yy = fx_mul(u.y, u.y);
    let xy = fx_mul(u.x, u.y);
    proof {
        lemma_mul_fx_bound(u.x as int, u.x as int, 131072, 131072);
        lemma_mul_fx_bound(u.y as int, u.y as int, 131072, 131072);
        lemma_mul_fx_bound(u.x as int, u.y as int, 131072, 131072);
    }
    let xx_a = fx_mul(xx, a);
    let yy_a = fx_mul(yy, a);
    let b = fx_mul(xy, a);
    proof {
        lemma_mul_fx_bound(xx as int, a as int, 262144, 65536);
        lemma_mul_fx_bound(yy as int, a as int, 262144, 65536);
        lemma_mul_fx_bound(xy as int, a as int, 262144, 65536);
    }
    proof {
        let s = onb_sign(u);
        let xa = mul_fx(mul_fx(u.x as int, u.x as int), onb_a(u));
        let ya = mul_fx(mul_fx(u.y as int, u.y as int), onb_a(u));
        if spos {
            assert(s == 1);
            assert(s * (ONE as int) == ONE as int);
            assert(denom as int == s * (ONE as int) + u.z);
            assert(a == onb_a(u));
            assert(s * xa == xa);
            assert(s * onb_b(u) == onb_b(u));
            assert(s * u.x as int == u.x as int);
        } else {
            assert(s == -1);
            assert(s * (ONE as int) == -(ONE as int));
            assert(denom as int == s * (ONE as int) + u.z);
            assert(a == onb_a(u));
            assert(s * xa == -xa);
            assert(s * onb_b(u) == -onb_b(u));
            assert(s * u.x as int == -(u.x as int));
        }
    }
    let v = if spos {
        Vec3::new(ONE + xx_a, b, -u.x)
    } else {
        Vec3::new(ONE - xx_a, -b, u.x)
    };
    let w = if spos {
        Vec3::new(b, ONE + yy_a, -u.y)
    } else {
        Vec3::new(b, -ONE + yy_a, -u.y)
    };
    (v, w)
}

/// A cosine sample `c` re-expressed in the basis `(u, onb_v(u), onb_w(u))`:
/// `c.z u + c.x v + c.y w`, component by component.
pub open spec fn hemi_combo(u: Vec3, c: Vec3) -> Vec3 {
    let v = onb_v(u);
    let w = onb_w(u);
    Vec3 {
        x: (mul_fx(c.z as int, u.x as int) + mul_fx(c.x as int, v.x as int) + mul_fx(
            c.y as int,
            w.x as int,
        )) as i64,
        y: (mul_fx(c.z as int, u.y as int) + mul_fx(c.x as int, v.y as int) + mul_fx(
            c.y as int,
            w.y as int,
        )) as i64,
        z: (mul_fx(c.z as int, u.z as int) + mul_fx(c.x as int, v.z as int) + mul_fx(
            c.y as int,
            w.z as int,
        )) as i64,
    }
}

/// Cosine-weighted sample on the unit hemisphere around `u`: some near-unit
/// cosine sample, re-expressed exactly in the basis that `onb` completes.
pub fn random_hemisphere_cosine(u: Vec3, rng: &mut Rng) -> (r: Vec3)
    requires
        bounded(u, 2 * ONE as int),
    ensures
        bounded(r, DIR_RANGE as int),
        exists|c: Vec3|
            bounded(c, 2 * ONE as int) && 0 <= c.z <= ONE && near_unit_to(c, 64) && r
                == #[trigger] hemi_combo(u, c),
{
    let (v, w) = onb(u);
    let c = random_cosine(rng);
    proof {
        lemma_mul_fx_bound(c.z as int, u.x as int, 131072, 131072);
        lemma_mul_fx_bound(c.z as int, u.y as int, 131072, 131072);
        lemma_mul_fx_bound(c.z as int, u.z as int, 131072, 131072);
        lemma_mul_fx_bound(c.x as int, v.x as int, 131072, 524288);
        lemma_mul_fx_bound(c.x as int, v.y as int, 131072, 524288);
        lemma_mul_fx_bound(c.x as int, v.z as int, 131072, 524288);
        lemma_mul_fx_bound(c.y as int, w.x as int, 131072, 524288);
        lemma_mul_fx_bound(c.y as int, w.y as int, 131072, 524288);
        lemma_mul_fx_bound(c.y as int, w.z as int, 131072, 524288);
    }
    let t1 = u.scale(c.z);
    let t2 = v.scale(c.x);
    let t3 = w.scale(c.y);
    let out = t1.add(t2).add(t3);
    proof {
        assert(out == hemi_combo(u, c));
    }
    out
}

} // verus!
