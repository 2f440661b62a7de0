//! The closed set of material kinds, with the Schlick Fresnel
//! approximation, refraction, and the Henyey-Greenstein phase function.
//!
//! Each helper's contract states the fixed-point result exactly; numerical
//! degeneracies (near-zero divisors from out-of-range cosines) are clamped
//! and the clamp is part of the stated semantics.

use vstd::prelude::*;

verus! {

use crate::fixed::{
    ONE, in_range, mul_fx, div_fx, sqrt_fx, fx_mul, fx_div, fx_sqrt, fx_abs, abs_i,
    lemma_mul_fx_bound, lemma_div_fx_bound, lemma_unit_mul, lemma_div_tz_exact,
};
use crate::vector::{Vec3, bounded, dot3, dot, DIR_RANGE, lemma_dot_bound};

/// Largest accepted light intensity (1024.0).
pub const INTENSITY_MAX: i64 = 0x400_0000;

/// Least accepted refractive index (0.125).
pub const GLASS_MIN: i64 = 8192;

/// Largest accepted refractive index (8.0).
pub const GLASS_MAX: i64 = 0x8_0000;

/// Largest accepted magnitude of the scattering anisotropy (0.75).  Up to
/// this value the phase denominator `1 + g^2 - 2 g cos` stays at least
/// `(1 - 3/4)^2 = 1/16` for unit cosines, so its clamp never engages for
/// directions a unit sampler produces; beyond it the fixed-point division
/// would need the clamp on ordinary inputs.
pub const G_MAX: i64 = 49152;

/// The material kinds: how an incoming ray at a surface produces a sampled
/// outgoing direction, a weighting factor, and whether emission ends the
/// path.
#[derive(Clone, Copy, PartialEq, Eq, Structural, Debug)]
pub enum Material {
    /// Uniform-hemisphere diffuse, with albedo.
    Lambert(i64),
    /// Cosine-importance-sampled diffuse, one-sided, with albedo.
    LambertCos(i64),
    /// Perfect specular reflection, with albedo.
    Mirror(i64),
    /// Dielectric with the given refractive index.
    Glass(i64),
    /// Terminal light, emitting in all directions.
    Light(i64),
    /// Terminal light, emitting only on the normal-facing side.
    LightUni(i64),
    /// Terminal light with a sharp cosine-power falloff.
    LightCos(i64),
    /// Volumetric Henyey-Greenstein scattering with anisotropy g.
    Scatter(i64),
    /// Diagnostic: always white.
    Test,
}

/// Albedos sit in `[0, 1]`, intensities in `[0, INTENSITY_MAX]`, refractive
/// indices in `[GLASS_MIN, GLASS_MAX]`, anisotropy in `[-G_MAX, G_MAX]`.
pub open spec fn wf_material(m: Material) -> bool {
    match m {
        Material::Lambert(a) => 0 <= a <= ONE,
        Material::LambertCos(a) => 0 <= a <= ONE,
        Material::Mirror(a) => 0 <= a <= ONE,
        Material::Glass(n) => GLASS_MIN <= n <= GLASS_MAX,
        Material::Light(i) => 0 <= i <= INTENSITY_MAX,
        Material::LightUni(i) => 0 <= i <= INTENSITY_MAX,
        Material::LightCos(i) => 0 <= i <= INTENSITY_MAX,
        Material::Scatter(g) => in_range(g as int, G_MAX as int),
        Material::Test => true,
    }
}

/// The reflectance at normal incidence, `((1 - n) / (1 + n))^2`.
pub open spec fn schlick_r0(n: int) -> int {
    let q = div_fx(ONE - n, ONE + n);
    mul_fx(q, q)
}

/// The Schlick approximation: `r0 + (1 - r0) (1 - cos)^5`, with the base
/// clamped at zero for cosines above one.
pub open spec fn schlick_fx(cos: int, n: int) -> int {
    let r0 = schlick_r0(n);
    let t = if ONE - cos >= 0 {
        ONE - cos
    } else {
        0
    };
    let t2 = mul_fx(t, t);
    let t4 = mul_fx(t2, t2);
    r0 + mul_fx(ONE - r0, mul_fx(t4, t))
}

/// `schlick_r0` lies in `[0, 1]`.
pub proof fn lemma_schlick_r0(n: int)
    requires
        GLASS_MIN <= n <= GLASS_MAX,
    ensures
        0 <= schlick_r0(n) <= ONE,
{
    let q = div_fx(ONE - n, ONE + n);
    lemma_div_fx_bound(ONE - n, ONE + n, ONE + n);
    assert(abs_i(ONE - n) <= ONE + n);
    assert(abs_i(ONE - n) * (ONE as int) <= (ONE + n) * (ONE as int)) by (nonlinear_arith)
        requires
            abs_i(ONE - n) <= ONE + n,
            0 < ONE + n,
    ;
    vstd::arithmetic::div_mod::lemma_div_is_ordered(
        abs_i(ONE - n) * (ONE as int),
        (ONE + n) * (ONE as int),
        ONE + n,
    );
    lemma_div_tz_exact(ONE as int, ONE + n);
    assert((ONE as int) * (ONE + n) == (ONE + n) * (ONE as int)) by (nonlinear_arith);
    assert(abs_i(q) <= ONE);
    crate::fixed::lemma_abs_mul(q, q);
    crate::fixed::lemma_div_tz_abs(q * q, ONE as int);
    assert(q * q >= 0) by (nonlinear_arith);
    vstd::arithmetic::div_mod::lemma_div_pos_is_pos(q * q, ONE as int);
    lemma_unit_mul(abs_i(q), abs_i(q));
    assert(abs_i(q * q) == abs_i(q) * abs_i(q));
    assert(mul_fx(q, q) == div_fx_helper_abs(q));
}

/// Abbreviation for the proof above: the square as a nonnegative quantity.
spec fn div_fx_helper_abs(q: int) -> int {
    crate::fixed::div_tz(q * q, ONE as int)
}

/// Schlick approximation to the Fresnel reflectance, exact per `schlick_fx`.
pub fn schlick(cos: i64, n_dielectric: i64) -> (r: i64)
    requires
        0 <= cos,
        in_range(cos as int, 0x2_0000_0000),
        GLASS_MIN <= n_dielectric <= GLASS_MAX,
    ensures
        r == schlick_fx(cos as int, n_dielectric as int),
        0 <= r <= 2 * ONE,
{
    let q = fx_div(ONE - n_dielectric, ONE + n_dielectric);
    let r0 = fx_mul(q, q);
    proof {
        lemma_schlick_r0(n_dielectric as int);
    }
    let t = if ONE - cos >= 0 {
        ONE - cos
    } else {
        0
    };
    let t2 = fx_mul(t, t);
    proof {
        lemma_unit_mul(t as int, t as int);
        lemma_unit_mul(t2 as int, t2 as int);
    }
    let t4 = fx_mul(t2, t2);
    proof {
        lemma_unit_mul(t4 as int, t as int);
        lemma_unit_mul((ONE - r0) as int, mul_fx(t4 as int, t as int));
    }
    let t5 = fx_mul(t4, t);
    r0 + fx_mul(ONE - r0, t5)
}

/// The refraction discriminant `1 - refr^2 (1 - (v . n)^2)`.
pub open spec fn refract_disc(v: Vec3, n: Vec3, refr: int) -> int {
    let dt = dot3(v, n);
    ONE - mul_fx(ONE - mul_fx(dt, dt), mul_fx(refr, refr))
}

/// The refracted direction `refr (v + |v . n| n) - sqrt(disc) n`.
pub open spec fn refract_vec(v: Vec3, n: Vec3, refr: int) -> Vec3 {
    let dt = dot3(v, n);
    let sq = sqrt_fx(refract_disc(v, n, refr));
    Vec3 {
        x: (mul_fx(refr, v.x + mul_fx(abs_i(dt), n.x as int)) - mul_fx(sq, n.x as int)) as i64,
        y: (mul_fx(refr, v.y + mul_fx(abs_i(dt), n.y as int)) - mul_fx(sq, n.y as int)) as i64,
        z: (mul_fx(refr, v.z + mul_fx(abs_i(dt), n.z as int)) - mul_fx(sq, n.z as int)) as i64,
    }
}

/// Refract `v` at a surface with normal `n` and refraction ratio `refr`;
/// `None` under total internal reflection (no real solution).
pub fn refract(v: Vec3, n: Vec3, refr: i64) -> (r: Option<Vec3>)
    requires
        bounded(v, DIR_RANGE as int),
        bounded(n, DIR_RANGE as int),
        GLASS_MIN <= refr <= GLASS_MAX,
    ensures
        r == if refract_disc(v, n, refr as int) > 0 {
            Some(refract_vec(v, n, refr as int))
        } else {
            None::<Vec3>
        },
    {
    let dt = dot(v, n);
    proof {
        lemma_dot_bound(v, n, 0x40_0000, 0x40_0000);
        lemma_mul_fx_bound(dt as int, dt as int, 0x4000_0000, 0x4000_0000);
        lemma_mul_fx_bound(refr as int, refr as int, 0x8_0000, 0x8_0000);
        lemma_mul_fx_bound(
            ONE as int - mul_fx(dt as int, dt as int),
            mul_fx(refr as int, refr as int),
            0x1_0000_0000_0000,
            0x40_0000,
        );
    }
    let rr = fx_mul(refr, refr);
    let inner = ONE - fx_mul(dt, dt);
    let disc = ONE - fx_mul(inner, rr);
    if disc > 0 {
        let sq = fx_sqrt(disc);
        let adt = fx_abs(dt);
        proof {
            crate::fixed::lemma_sqrt_fx_le(disc as int, 0x20_0000_0000);
            lemma_mul_fx_bound(adt as int, n.x as int, 0x4000_0000, 0x40_0000);
            lemma_mul_fx_bound(adt as int, n.y as int, 0x4000_0000, 0x40_0000);
            lemma_mul_fx_bound(adt as int, n.z as int, 0x4000_0000, 0x40_0000);
        }
        let shifted = v.add(n.scale(adt));
        proof {
            lemma_mul_fx_bound(refr as int, shifted.x as int, 0x8_0000, 0x80_0000_0000);
            lemma_mul_fx_bound(refr as int, shifted.y as int, 0x8_0000, 0x80_0000_0000);
            lemma_mul_fx_bound(refr as int, shifted.z as int, 0x8_0000, 0x80_0000_0000);
            lemma_mul_fx_bound(sq as int, n.x as int, 0x20_0000_0000, 0x40_0000);
            lemma_mul_fx_bound(sq as int, n.y as int, 0x20_0000_0000, 0x40_0000);
            lemma_mul_fx_bound(sq as int, n.z as int, 0x20_0000_0000, 0x40_0000);
        }
        Some(shifted.scale(refr).sub(n.scale(sq)))
    } else {
        // Total internal reflection: no refracted ray.
        None
    }
}

/// The clamped denominator `max(1 + g^2 - 2 g cos, 1/16)` of the phase
/// function, and its 3/2 power clamped below at one raw unit.
pub open spec fn hg_denom(cos: int, g: int) -> int {
    let d0 = ONE + mul_fx(g, g) - 2 * mul_fx(g, cos);
    if d0 < 4096 {
        4096
    } else {
        d0
    }
}

pub open spec fn hg_denom_pow(cos: int, g: int) -> int {
    let d = hg_denom(cos, g);
    let p = mul_fx(d, sqrt_fx(d));
    if p < 1 {
        1
    } else {
        p
    }
}

/// The Henyey-Greenstein phase value `(1 - g^2) / (2 denom^(3/2))`.
pub open spec fn hg_fx(cos: int, g: int) -> int {
    div_fx(mul_fx(32768, ONE - mul_fx(g, g)), hg_denom_pow(cos, g))
}

/// Henyey-Greenstein phase function at `cos = cos(theta)`, exact per
/// `hg_fx`; the denominator is clamped away from zero, which matters only
/// for out-of-range cosines that a unit sampler never produces.
pub fn henyey_greenstein(cos: i64, g: i64) -> (r: i64)
    requires
        in_range(cos as int, 0x1000_0000),
        in_range(g as int, G_MAX as int),
    ensures
        r == hg_fx(cos as int, g as int),
        0 <= r <= 0x8000_0000,
{
    let g2 = fx_mul(g, g);
    proof {
        lemma_mul_fx_bound(g as int, g as int, 49152, 49152);
        lemma_mul_fx_bound(g as int, cos as int, 49152, 0x1000_0000);
        assert(mul_fx(g as int, g as int) >= 0) by {
            assert((g as int) * (g as int) >= 0) by (nonlinear_arith);
            vstd::arithmetic::div_mod::lemma_div_pos_is_pos((g as int) * (g as int), ONE as int);
        }
        lemma_unit_mul(32768, (ONE - mul_fx(g as int, g as int)) as int);
    }
    let d0 = ONE + g2 - 2 * fx_mul(g, cos);
    let d = if d0 < 4096 {
        4096
    } else {
        d0
    };
    let sq = fx_sqrt(d);
    proof {
        crate::fixed::lemma_sqrt_fx_le(d as int, 0x80_0000);
        lemma_mul_fx_bound(d as int, sq as int, 0x4000_0000, 0x80_0000);
    }
    let p0 = fx_mul(d, sq);
    let p = if p0 < 1 {
        1
    } else {
        p0
    };
    let num = fx_mul(32768, ONE - g2);
    let r = fx_div(num, p);
    proof {
        lemma_div_fx_bound(num as int, p as int, 1);
        assert((num as int) * (ONE as int) <= 0x8000_0000) by (nonlinear_arith)
            requires 0 <= num as int <= 32768;
        assert(div_fx(num as int, p as int) >= 0) by {
            crate::fixed::lemma_div_tz_abs((num as int) * (ONE as int), p as int);
            assert((num as int) * (ONE as int) >= 0) by (nonlinear_arith)
                requires num >= 0;
            vstd::arithmetic::div_mod::lemma_div_pos_is_pos(
                (num as int) * (ONE as int),
                p as int,
            );
        }
    }
    r
}

} // verus!
