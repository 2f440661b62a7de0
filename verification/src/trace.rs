//! The recursive integrator: resolve the nearest intersection, dispatch on
//! the material kind, trace the bounced ray, and combine radiances.
//!
//! The depth parameter is a strict bound on the bounce count: depth zero
//! returns black with no work.  For medium-free scenes the contract pins
//! the deterministic outcomes exactly: a miss returns the background value
//! for the ray, and a hit on an omnidirectional light returns the light's
//! intensity modulated by the object's base colour.

use vstd::prelude::*;

verus! {

use crate::fixed::{
    ONE, EPS, RAD_CAP, in_range, mul_fx, div_fx, rad_mul_fx, pow_fx, sqrt_fx, fx_mul, fx_div,
    fx_abs, fx_max0, fx_pow, lemma_div_tz_exact, lemma_mul_fx_bound, lemma_unit_mul,
};
use crate::vector::{Vec3, Colour, Ray, bounded, nonneg, dot3, dot, reflect, DIR_RANGE};
use crate::shape::{wf_ray, ray_ok};
use crate::material::{Material, schlick, refract, henyey_greenstein, GLASS_MIN, GLASS_MAX};
use crate::object::{Object, wf_scene, scene_no_medium, scene_hit_det, scene_intersect};
use crate::sample::{random_hemisphere, random_hemisphere_cosine, random_vector};
use crate::rng::Rng;

/// The fixed-point value of pi used by the tracer.
pub const PI_FX: i64 = 205887;

/// A radiance value: nonnegative and at most the radiance cap.
pub open spec fn rad_ok(c: Colour) -> bool {
    nonneg(c) && bounded(c, RAD_CAP as int)
}

/// The colour black, the no-hit terminal of the truncated recursion.
pub open spec fn black() -> Colour {
    Vec3 { x: 0i64, y: 0i64, z: 0i64 }
}

/// What an omnidirectional light hit returns: the light's intensity in all
/// channels, modulated by the object's base colour.
pub open spec fn light_emission(c: Colour, intensity: int) -> Colour {
    Vec3 {
        x: rad_mul_fx(c.x as int, intensity) as i64,
        y: rad_mul_fx(c.y as int, intensity) as i64,
        z: rad_mul_fx(c.z as int, intensity) as i64,
    }
}

/// What a one-sided light hit returns: full emission when the ray arrives
/// against the stored normal, black otherwise.
pub open spec fn light_uni_value(c: Colour, intensity: int, normal: Vec3, dir: Vec3) -> Colour {
    if dot3(normal, dir) < 0 {
        light_emission(c, intensity)
    } else {
        black()
    }
}

/// What a cosine-falloff light hit returns: the emission scaled by the
/// hundredth power of the (clamped) cosine against the inverted normal.
pub open spec fn light_cos_value(c: Colour, intensity: int, normal: Vec3, dir: Vec3) -> Colour {
    let a = -dot3(dir, normal);
    let a0 = if a > 0 {
        a
    } else {
        0
    };
    let base = if a0 > ONE {
        ONE as int
    } else {
        a0
    };
    light_emission(c, mul_fx(pow_fx(base, 100), intensity))
}

/// One scattering bounce combined: the base colour times the weighted
/// child radiance, channel by channel, saturating at the radiance cap.
pub open spec fn bounce(c: Colour, w: int, child: Colour) -> Colour {
    Vec3 {
        x: rad_mul_fx(c.x as int, rad_mul_fx(w, child.x as int)) as i64,
        y: rad_mul_fx(c.y as int, rad_mul_fx(w, child.y as int)) as i64,
        z: rad_mul_fx(c.z as int, rad_mul_fx(w, child.z as int)) as i64,
    }
}

/// The base colour times the child radiance, channel by channel (a bounce
/// with unit weight, as glass performs).
pub open spec fn filtered(c: Colour, child: Colour) -> Colour {
    Vec3 {
        x: rad_mul_fx(c.x as int, child.x as int) as i64,
        y: rad_mul_fx(c.y as int, child.y as int) as i64,
        z: rad_mul_fx(c.z as int, child.z as int) as i64,
    }
}

/// A bounce with a black child is black.
proof fn lemma_bounce_black(c: Colour, w: int)
    requires
        0 <= w,
        nonneg(c),
    ensures
        bounce(c, w, black()) == black(),
{
    vstd::arithmetic::div_mod::lemma_div_of0(ONE as int);
    assert(w * 0 == 0) by (nonlinear_arith);
    assert(mul_fx(w, 0) == 0);
    assert(c.x * 0 == 0 && c.y * 0 == 0 && c.z * 0 == 0) by (nonlinear_arith);
    assert(rad_mul_fx(c.x as int, 0) == 0 && rad_mul_fx(c.y as int, 0) == 0 && rad_mul_fx(
        c.z as int,
        0,
    ) == 0);
}

/// The background radiance: a pure function of the ray's direction.  This
/// renderer uses constant black.
pub open spec fn background_spec(ray: Ray) -> Colour {
    black()
}

/// The background radiance for a ray that escapes the scene.
pub fn background(ray: Ray) -> (r: Colour)
    ensures
        r == background_spec(ray),
{
    Vec3::zero()
}

/// The sun's sharp falloff term: the cosine against the sun direction,
/// nudged and clamped into the unit interval, raised to the hundredth power.
pub open spec fn sky_sun(dir: Vec3) -> int {
    let sun = Vec3 { x: -37837i64, y: 37837i64, z: -37837i64 };
    let c = dot3(sun, dir) + 1966;
    let cc = if c < 0 {
        0int
    } else if c > ONE {
        ONE as int
    } else {
        c
    };
    pow_fx(cc, 100)
}

/// The horizon blend factor `(1/2 + y/2)^(3/2)`, clamped to the unit
/// interval.
pub open spec fn sky_lerp(dir: Vec3) -> int {
    let b = 32768 + mul_fx(dir.y as int, 32768);
    let bc = if b < 0 {
        0int
    } else if b > ONE {
        ONE as int
    } else {
        b
    };
    mul_fx(bc, sqrt_fx(bc))
}

/// One channel of the sky gradient: the sun term plus 0.4 of the blend of
/// the sky colour toward white.
pub open spec fn sky_channel(dir: Vec3, base: int) -> int {
    let lerp = sky_lerp(dir);
    sky_sun(dir) + mul_fx(26214, mul_fx(ONE - lerp, base) + mul_fx(lerp, ONE as int))
}

/// A background that looks a bit like a real sky: a sharp sun plus a
/// vertical gradient from the sky colour to white.
pub fn sky_background(ray: Ray) -> (r: Colour)
    requires
        bounded(ray.direction, DIR_RANGE as int),
    ensures
        r.x == sky_channel(ray.direction, 29491),
        r.y == sky_channel(ray.direction, 44564),
        r.z == sky_channel(ray.direction, 57016),
        nonneg(r),
{
    let dir = ray.direction;
    let sun_dir = Vec3::new(-37837, 37837, -37837);
    let c0 = dot(sun_dir, dir);
    proof {
        crate::vector::lemma_dot_bound(sun_dir, dir, 65536, 0x40_0000);
    }
    let c1 = c0 + 1966;
    let cc = if c1 < 0 {
        0
    } else if c1 > ONE {
        ONE
    } else {
        c1
    };
    let sun = fx_pow(cc, 100);
    proof {
        lemma_mul_fx_bound(dir.y as int, 32768, 0x40_0000, 32768);
    }
    let b0 = 32768 + fx_mul(dir.y, 32768);
    let bc = if b0 < 0 {
        0
    } else if b0 > ONE {
        ONE
    } else {
        b0
    };
    let sq = crate::fixed::fx_sqrt(bc);
    proof {
        crate::fixed::lemma_sqrt_fx_le(bc as int, 65536);
        lemma_unit_mul(bc as int, sq as int);
    }
    let lerp = fx_mul(bc, sq);
    let kx = sky_blend(lerp, 29491);
    let ky = sky_blend(lerp, 44564);
    let kz = sky_blend(lerp, 57016);
    Vec3::new(sun + kx, sun + ky, sun + kz)
}

/// One blended, scaled channel of the sky gradient.
fn sky_blend(lerp: i64, base: i64) -> (r: i64)
    requires
        0 <= lerp <= ONE,
        0 <= base <= ONE,
    ensures
        r == mul_fx(26214, mul_fx(ONE - lerp, base as int) + mul_fx(lerp as int, ONE as int)),
        0 <= r <= ONE,
{
    proof {
        lemma_unit_mul((ONE - lerp) as int, base as int);
        lemma_unit_mul(lerp as int, ONE as int);
        lemma_mul_fx_bound(
            26214,
            mul_fx((ONE - lerp) as int, base as int) + mul_fx(lerp as int, ONE as int),
            26214,
            131072,
        );
        assert(26214int * (mul_fx((ONE - lerp) as int, base as int) + mul_fx(
            lerp as int,
            ONE as int,
        )) >= 0) by (nonlinear_arith)
            requires
                mul_fx((ONE - lerp) as int, base as int) >= 0,
                mul_fx(lerp as int, ONE as int) >= 0,
        ;
        vstd::arithmetic::div_mod::lemma_div_pos_is_pos(
            26214 * (mul_fx((ONE - lerp) as int, base as int) + mul_fx(lerp as int, ONE as int)),
            ONE as int,
        );
        assert(26214int * (mul_fx((ONE - lerp) as int, base as int) + mul_fx(
            lerp as int,
            ONE as int,
        )) <= 26214 * 131072) by (nonlinear_arith)
            requires
                0 <= mul_fx((ONE - lerp) as int, base as int) <= 65536,
                0 <= mul_fx(lerp as int, ONE as int) <= 65536,
        ;
    }
    fx_mul(26214, fx_mul(ONE - lerp, base) + fx_mul(lerp, ONE))
}

/// One radiance sample along `ray` into `scene`, with at most `depth`
/// bounces.
///
/// The contract pins what is deterministic: depth zero is black for any
/// scene; over a medium-free scene, a miss is exactly the background value
/// and a hit on an omnidirectional light is exactly its emission.  All
/// other outcomes depend on the random stream; of them the contract states
/// that the result is a radiance value within the cap.
#[verifier::rlimit(100)]
#[verifier::spinoff_prover]
pub fn trace(scene: &Vec<Object>, ray: Ray, depth: usize, rng: &mut Rng) -> (r: Colour)
    requires
        wf_scene(scene@),
        wf_ray(ray),
    ensures
        rad_ok(r),
        depth == 0 ==> r == black(),
        (depth > 0 && scene_no_medium(scene@) && scene_hit_det(scene@, ray) is None) ==> r
            == background_spec(ray),
        (depth > 0 && scene_no_medium(scene@) && scene_hit_det(scene@, ray) is Some
            && scene_hit_det(scene@, ray)->Some_0.material is Light) ==> r == light_emission(
            scene_hit_det(scene@, ray)->Some_0.colour,
            scene_hit_det(scene@, ray)->Some_0.material->Light_0 as int,
        ),
        (depth > 0 && scene_no_medium(scene@) && scene_hit_det(scene@, ray) is Some
            && scene_hit_det(scene@, ray)->Some_0.material is LightUni) ==> r == light_uni_value(
            scene_hit_det(scene@, ray)->Some_0.colour,
            scene_hit_det(scene@, ray)->Some_0.material->LightUni_0 as int,
            scene_hit_det(scene@, ray)->Some_0.normal,
            ray.direction,
        ),
        (depth > 0 && scene_no_medium(scene@) && scene_hit_det(scene@, ray) is Some
            && scene_hit_det(scene@, ray)->Some_0.material is LightCos) ==> r == light_cos_value(
            scene_hit_det(scene@, ray)->Some_0.colour,
            scene_hit_det(scene@, ray)->Some_0.material->LightCos_0 as int,
            scene_hit_det(scene@, ray)->Some_0.normal,
            ray.direction,
        ),
        (depth > 0 && scene_no_medium(scene@) && scene_hit_det(scene@, ray) is Some
            && scene_hit_det(scene@, ray)->Some_0.material is Test) ==> r == scene_hit_det(
            scene@,
            ray,
        )->Some_0.colour,
        (depth > 0 && scene_no_medium(scene@) && scene_hit_det(scene@, ray) is Some
            && scene_hit_det(scene@, ray)->Some_0.material is Lambert) ==> exists|wt: int, child: Colour|
            0 <= wt && rad_ok(child) && r == #[trigger] bounce(
                scene_hit_det(scene@, ray)->Some_0.colour,
                wt,
                child,
            ),
        (depth > 0 && scene_no_medium(scene@) && scene_hit_det(scene@, ray) is Some
            && scene_hit_det(scene@, ray)->Some_0.material is LambertCos) ==> exists|child: Colour|
            rad_ok(child) && r == #[trigger] bounce(
                scene_hit_det(scene@, ray)->Some_0.colour,
                scene_hit_det(scene@, ray)->Some_0.material->LambertCos_0 as int,
                child,
            ),
        (depth > 0 && scene_no_medium(scene@) && scene_hit_det(scene@, ray) is Some
            && scene_hit_det(scene@, ray)->Some_0.material is LambertCos && dot3(
            ray.direction,
            scene_hit_det(scene@, ray)->Some_0.normal,
        ) >= 0) ==> r == black(),
        (depth > 0 && scene_no_medium(scene@) && scene_hit_det(scene@, ray) is Some
            && scene_hit_det(scene@, ray)->Some_0.material is Mirror) ==> exists|child: Colour|
            rad_ok(child) && r == #[trigger] bounce(
                scene_hit_det(scene@, ray)->Some_0.colour,
                scene_hit_det(scene@, ray)->Some_0.material->Mirror_0 as int,
                child,
            ),
        (depth > 0 && scene_no_medium(scene@) && scene_hit_det(scene@, ray) is Some
            && scene_hit_det(scene@, ray)->Some_0.material is Glass) ==> exists|child: Colour|
            rad_ok(child) && r == #[trigger] filtered(
                scene_hit_det(scene@, ray)->Some_0.colour,
                child,
            ),
        (depth > 0 && scene_no_medium(scene@) && scene_hit_det(scene@, ray) is Some
            && scene_hit_det(scene@, ray)->Some_0.material is Scatter) ==> exists|wt: int, child: Colour|
            0 <= wt && rad_ok(child) && r == #[trigger] bounce(
                scene_hit_det(scene@, ray)->Some_0.colour,
                wt,
                child,
            ),
    decreases depth,
{
    if depth == 0 {
        return Vec3::zero();
    }
    match scene_intersect(scene, ray, rng) {
        None => background(ray),
        Some(hit) => {
            let point = hit.point;
            let normal = hit.normal;
            let colour = hit.colour;
            match hit.material {
                Material::Lambert(albedo) => {
                    let new_direction = random_hemisphere(normal, rng);
                    let cosw = fx_max0(dot(new_direction, normal));
                    proof {
                        crate::vector::lemma_dot_bound(new_direction, normal, 131072, 0x40_0000);
                        lemma_mul_fx_bound(cosw as int, albedo as int, 0x200_0000, 65536);
                        lemma_mul_nonneg(cosw as int, albedo as int);
                    }
                    let weight = 2 * fx_mul(cosw, albedo);
                    let new_origin = point.add(normal.scale(EPS));
                    proof {
                        lemma_eps_offset(point, normal);
                    }
                    let nray = Ray::new(new_origin, new_direction);
                    if ray_ok(nray) {
                        let child = trace(scene, nray, depth - 1, rng);
                        let out = colour.mul(child.scale_rad(weight));
                        proof {
                            assert(out == bounce(colour, weight as int, child));
                        }
                        out
                    } else {
                        // Out of the finite world: no further transport.
                        proof {
                            lemma_bounce_black(colour, weight as int);
                        }
                        Vec3::zero()
                    }
                },
                Material::LambertCos(albedo) => {
                    if dot(ray.direction, normal) < 0 && unit_dir(normal) {
                        let new_direction = random_hemisphere_cosine(normal, rng);
                        let new_origin = point.add(normal.scale(EPS));
                        proof {
                            lemma_eps_offset(point, normal);
                        }
                        let nray = Ray::new(new_origin, new_direction);
                        if ray_ok(nray) {
                            let child = trace(scene, nray, depth - 1, rng);
                            let out = colour.mul(child.scale_rad(albedo));
                            proof {
                                assert(out == bounce(colour, albedo as int, child));
                            }
                            out
                        } else {
                            proof {
                                lemma_bounce_black(colour, albedo as int);
                            }
                            Vec3::zero()
                        }
                    } else {
                        // Backside of a one-sided diffuse surface.
                        proof {
                            lemma_bounce_black(colour, albedo as int);
                        }
                        Vec3::zero()
                    }
                },
                Material::Mirror(albedo) => {
                    let new_direction = reflect(ray.direction, normal);
                    let new_origin = point.add(normal.scale(EPS));
                    proof {
                        lemma_eps_offset(point, normal);
                    }
                    let nray = Ray::new(new_origin, new_direction);
                    if ray_ok(nray) {
                        let child = trace(scene, nray, depth - 1, rng);
                        let out = colour.mul(child.scale_rad(albedo));
                        proof {
                            assert(out == bounce(colour, albedo as int, child));
                        }
                        out
                    } else {
                        proof {
                            lemma_bounce_black(colour, albedo as int);
                        }
                        Vec3::zero()
                    }
                },
                Material::Glass(n_dielectric) => {
                    let cos = dot(ray.direction, normal);
                    proof {
                        crate::vector::lemma_dot_bound(ray.direction, normal, 0x40_0000, 0x40_0000);
                    }
                    let ratio = if cos < 0 {
                        let q = fx_div(ONE, n_dielectric);
                        proof {
                            lemma_inverse_index(n_dielectric as int);
                        }
                        q
                    } else {
                        n_dielectric
                    };
                    // The working normal faces against the incoming ray.
                    let facing = if cos < 0 {
                        normal
                    } else {
                        normal.neg()
                    };
                    let child = match refract(ray.direction, facing, ratio) {
                        Some(refract_direction) => {
                            let schlick_factor = schlick(fx_abs(cos), n_dielectric);
                            let reflect_direction = reflect(ray.direction, facing);
                            let u = rng.next_unit();
                            if u < schlick_factor {
                                let new_origin = point.add(facing.scale(EPS));
                                proof {
                                    lemma_eps_offset(point, facing);
                                }
                                let nray = Ray::new(new_origin, reflect_direction);
                                if ray_ok(nray) {
                                    trace(scene, nray, depth - 1, rng)
                                } else {
                                    Vec3::zero()
                                }
                            } else {
                                let new_origin = point.sub(facing.scale(EPS));
                                proof {
                                    lemma_eps_offset(point, facing);
                                }
                                let nray = Ray::new(new_origin, refract_direction);
                                if ray_ok(nray) {
                                    trace(scene, nray, depth - 1, rng)
                                } else {
                                    Vec3::zero()
                                }
                            }
                        },
                        None => {
                            // Total internal reflection forces reflection.
                            let new_direction = reflect(ray.direction, normal);
                            let new_origin = point.add(facing.scale(EPS));
                            proof {
                                lemma_eps_offset(point, facing);
                            }
                            let nray = Ray::new(new_origin, new_direction);
                            if ray_ok(nray) {
                                trace(scene, nray, depth - 1, rng)
                            } else {
                                Vec3::zero()
                            }
                        },
                    };
                    let out = colour.mul(child);
                    proof {
                        assert(out == filtered(colour, child));
                    }
                    out
                },
                Material::Scatter(g) => {
                    let v = random_vector(rng);
                    let new_direction = if rng.next_bool() {
                        v
                    } else {
                        v.neg()
                    };
                    let cos = dot(new_direction, ray.direction);
                    proof {
                        crate::vector::lemma_dot_bound(new_direction, ray.direction, 131072, 0x40_0000);
                    }
                    let phase = henyey_greenstein(cos, g);
                    let weight = fx_div(phase, 2 * PI_FX);
                    proof {
                        lemma_div_nonneg(phase as int, 2 * PI_FX as int);
                    }
                    // Medium interactions are not surface-based: no offset.
                    let nray = Ray::new(point, new_direction);
                    if ray_ok(nray) {
                        let child = trace(scene, nray, depth - 1, rng);
                        let out = colour.mul(child.scale_rad(weight));
                        proof {
                            assert(out == bounce(colour, weight as int, child));
                        }
                        out
                    } else {
                        proof {
                            lemma_bounce_black(colour, weight as int);
                        }
                        Vec3::zero()
                    }
                },
                Material::Light(intensity) => {
                    let iw = Vec3::white().scale(intensity);
                    proof {
                        lemma_div_tz_exact(intensity as int, ONE as int);
                    }
                    colour.mul(iw)
                },
                Material::LightUni(intensity) => {
                    if dot(normal, ray.direction) < 0 {
                        let iw = Vec3::white().scale(intensity);
                        proof {
                            lemma_div_tz_exact(intensity as int, ONE as int);
                        }
                        colour.mul(iw)
                    } else {
                        // The light only emits on the side its normal faces.
                        Vec3::zero()
                    }
                },
                Material::LightCos(intensity) => {
                    let against = fx_max0(dot(ray.direction, normal.neg()));
                    proof {
                        lemma_dot_neg_flip(ray.direction, normal);
                        crate::vector::lemma_dot_bound(ray.direction, normal, 0x40_0000, 0x40_0000);
                    }
                    let base = if against > ONE {
                        ONE
                    } else {
                        against
                    };
                    let falloff = fx_pow(base, 100);
                    proof {
                        lemma_mul_fx_bound(falloff as int, intensity as int, 65536, 0x400_0000);
                        lemma_mul_nonneg(falloff as int, intensity as int);
                    }
                    let k = fx_mul(falloff, intensity);
                    let iw = Vec3::new(k, k, k);
                    colour.mul(iw)
                },
                Material::Test => {
                    proof {
                        lemma_div_tz_exact(colour.x as int, ONE as int);
                        lemma_div_tz_exact(colour.y as int, ONE as int);
                        lemma_div_tz_exact(colour.z as int, ONE as int);
                    }
                    colour.mul(Vec3::white())
                },
            }
        },
    }
}

/// The fixed-point product of nonnegative values is nonnegative.
proof fn lemma_mul_nonneg(a: int, b: int)
    requires
        0 <= a,
        0 <= b,
    ensures
        0 <= mul_fx(a, b),
{
    assert(a * b >= 0) by (nonlinear_arith)
        requires 0 <= a && 0 <= b;
    vstd::arithmetic::div_mod::lemma_div_pos_is_pos(a * b, ONE as int);
}

/// The fixed-point quotient of a nonnegative value by a positive one is
/// nonnegative.
proof fn lemma_div_nonneg(a: int, b: int)
    requires
        0 <= a,
        0 < b,
    ensures
        0 <= div_fx(a, b),
{
    assert(a * (ONE as int) >= 0) by (nonlinear_arith)
        requires 0 <= a;
    vstd::arithmetic::div_mod::lemma_div_pos_is_pos(a * (ONE as int), b);
}

/// The epsilon offset along a direction stays within `i64` sums.
proof fn lemma_eps_offset(point: Vec3, normal: Vec3)
    requires
        bounded(point, 0x4_0000_0000),
        bounded(normal, DIR_RANGE as int),
    ensures
        in_range(mul_fx(EPS as int, normal.x as int), 1024),
        in_range(mul_fx(EPS as int, normal.y as int), 1024),
        in_range(mul_fx(EPS as int, normal.z as int), 1024),
{
    lemma_mul_fx_bound(EPS as int, normal.x as int, 8, 0x40_0000);
    lemma_mul_fx_bound(EPS as int, normal.y as int, 8, 0x40_0000);
    lemma_mul_fx_bound(EPS as int, normal.z as int, 8, 0x40_0000);
}

/// Runtime check that a vector is within the unit-direction slack used by
/// the cosine-weighted sampler.
fn unit_dir(v: Vec3) -> (r: bool)
    ensures
        r == bounded(v, 2 * ONE as int),
{
    let lim = 2 * ONE;
    -lim <= v.x && v.x <= lim && -lim <= v.y && v.y <= lim && -lim <= v.z && v.z <= lim
}

/// Negating the second dot operand negates the product.
proof fn lemma_dot_neg_flip(u: Vec3, n: Vec3)
    ensures
        dot3(u, Vec3 { x: (-n.x) as i64, y: (-n.y) as i64, z: (-n.z) as i64 }) == -dot3(u, n)
            || n.x == i64::MIN || n.y == i64::MIN || n.z == i64::MIN,
{
    if n.x != i64::MIN && n.y != i64::MIN && n.z != i64::MIN {
        let m = Vec3 { x: (-n.x) as i64, y: (-n.y) as i64, z: (-n.z) as i64 };
        assert(u.x * m.x == -(u.x * n.x)) by (nonlinear_arith)
            requires m.x == -n.x;
        assert(u.y * m.y == -(u.y * n.y)) by (nonlinear_arith)
            requires m.y == -n.y;
        assert(u.z * m.z == -(u.z * n.z)) by (nonlinear_arith)
            requires m.z == -n.z;
        crate::fixed::lemma_div_tz_neg(u.x * n.x + u.y * n.y + u.z * n.z, ONE as int);
    }
}

/// The reciprocal of a refractive index stays within the accepted range.
proof fn lemma_inverse_index(n: int)
    requires
        GLASS_MIN <= n <= GLASS_MAX,
    ensures
        GLASS_MIN <= div_fx(ONE as int, n) <= GLASS_MAX,
{
    assert(div_fx(ONE as int, n) == ((ONE as int) * (ONE as int)) / n);
    vstd::arithmetic::div_mod::lemma_div_is_ordered_by_denominator(
        (ONE as int) * (ONE as int),
        GLASS_MIN as int,
        n,
    );
    vstd::arithmetic::div_mod::lemma_div_is_ordered_by_denominator(
        (ONE as int) * (ONE as int),
        n,
        GLASS_MAX as int,
    );
    assert(((ONE as int) * (ONE as int)) / (GLASS_MIN as int) == GLASS_MAX as int);
    assert(((ONE as int) * (ONE as int)) / (GLASS_MAX as int) == GLASS_MIN as int);
}

} // verus!
