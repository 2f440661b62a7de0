//! General properties of the tracer, stated and proved over the spec
//! functions that the executable contracts use.
//!
//! Each law here holds for every input its `requires` admits; the
//! fixed-point laws that depend on exact division restrict inputs to raw
//! values whose squares are exact multiples of the scale (multiples of
//! 256), since rounding breaks bit-exactness off that grid.

use vstd::prelude::*;

verus! {

use crate::fixed::{
    ONE, EPS, in_range, div_tz, mul_fx, div_fx, sqrt_fx, abs_i, isqrt, lemma_isqrt,
    lemma_div_tz_exact, lemma_div_tz_neg,
};
use crate::vector::{Vec3, Ray, bounded, dot3, unitv, norm3, DOT_RANGE};
use crate::shape::{
    Plane, Sphere, plane_t, plane_dist, plane_hits, plane_hit, sph_a, sph_b, sph_c, sph_d2,
    sph_res, sph_norm, sph_hits, at_x, at_y, at_z, MAX_DIST, SHAPE_RANGE,
};
use crate::material::{refract_disc, refract_vec, Material};
use crate::object::{scene_hit_det, Object, GeneralObject};
use crate::shape::Shape;
use crate::camera::{cam_offset, translate_spec, CAM_RANGE};

/// The square root of an exact square is exact.
proof fn lemma_isqrt_square(k: nat)
    ensures
        isqrt(k * k) == k,
{
    lemma_isqrt(k * k);
    let r = isqrt(k * k);
    assert(r == k) by (nonlinear_arith)
        requires
            r * r <= k * k,
            k * k < (r + 1) * (r + 1),
    ;
}

/// Multiples of 256 have squares that are exact multiples of the scale,
/// and the fixed-point square then divides out exactly.
proof fn lemma_grid_square(v: int)
    requires
        v % 256 == 0,
    ensures
        mul_fx(v, v) * (ONE as int) == v * v,
        mul_fx(v, v) >= 0,
{
    let m = v / 256;
    vstd::arithmetic::div_mod::lemma_fundamental_div_mod(v, 256);
    assert(v * v == (m * m) * (ONE as int)) by (nonlinear_arith)
        requires
            v == 256 * m,
            (ONE as int) == 65536,
    ;
    lemma_div_tz_exact(m * m, ONE as int);
    assert(m * m >= 0) by (nonlinear_arith);
}

/// Normalising is idempotent: a vector of exact unit squared norm is its
/// own unit vector.
pub proof fn lemma_normalise_unit_fixed(v: Vec3)
    requires
        bounded(v, DOT_RANGE as int),
        dot3(v, v) == ONE,
    ensures
        unitv(v) == v,
{
    assert((ONE as int) * (ONE as int) == (65536 * 65536) as int);
    lemma_isqrt_square(65536nat);
    assert(norm3(v) == 65536);
    lemma_div_tz_exact(v.x as int, ONE as int);
    lemma_div_tz_exact(v.y as int, ONE as int);
    lemma_div_tz_exact(v.z as int, ONE as int);
    assert((v.x as int) * (ONE as int) == (v.x as int) * (ONE as int));
    assert(div_fx(v.x as int, 65536) == v.x as int);
    assert(div_fx(v.y as int, 65536) == v.y as int);
    assert(div_fx(v.z as int, 65536) == v.z as int);
}

/// A ray fired straight down a plane's unit normal from height `h` hits at
/// distance exactly `h`, at the plane's foot point.
pub proof fn lemma_plane_straight_down(h: i64)
    requires
        0 < h <= MAX_DIST,
    ensures
        ({
            let p = Plane { normal: Vec3 { x: 0i64, y: ONE, z: 0i64 }, size: 0i64 };
            let ray = Ray {
                origin: Vec3 { x: 0i64, y: h, z: 0i64 },
                direction: Vec3 { x: 0i64, y: (-ONE) as i64, z: 0i64 },
            };
            &&& plane_hits(p, ray)
            &&& plane_dist(p, ray) == h
            &&& plane_hit(p, ray).point == (Vec3 { x: 0i64, y: 0i64, z: 0i64 })
        }),
{
    let p = Plane { normal: Vec3 { x: 0i64, y: ONE, z: 0i64 }, size: 0i64 };
    let ray = Ray {
        origin: Vec3 { x: 0i64, y: h, z: 0i64 },
        direction: Vec3 { x: 0i64, y: (-ONE) as i64, z: 0i64 },
    };
    assert(ray.direction.x * p.normal.x == 0 && ray.direction.z * p.normal.z == 0
        && ray.direction.y * p.normal.y == -(65536int * 65536)) by (nonlinear_arith)
        requires
            ray.direction.x == 0 && p.normal.x == 0 && ray.direction.z == 0 && p.normal.z == 0
                && ray.direction.y == -65536 && p.normal.y == 65536,
    ;
    assert(plane_t(p, ray) == div_tz(-(65536int * 65536), 65536));
    lemma_div_tz_neg(65536int * 65536, 65536);
    lemma_div_tz_exact(65536, 65536);
    assert(plane_t(p, ray) == -65536);
    assert(p.normal.x * ray.origin.x == 0 && p.normal.z * ray.origin.z == 0 && p.normal.y
        * ray.origin.y == (h as int) * 65536) by (nonlinear_arith)
        requires
            p.normal.x == 0 && ray.origin.x == 0 && p.normal.z == 0 && ray.origin.z == 0
                && p.normal.y == 65536 && ray.origin.y == h as int,
    ;
    assert(dot3(p.normal, ray.origin) == div_tz((h as int) * 65536, 65536));
    lemma_div_tz_exact(h as int, 65536);
    assert(dot3(p.normal, ray.origin) == h as int);
    assert(plane_dist(p, ray) == div_fx(-(h as int), -65536));
    assert((-(h as int)) * 65536 == -((h as int) * 65536)) by (nonlinear_arith);
    assert(plane_dist(p, ray) == div_tz((h as int) * 65536, 65536));
    assert(plane_dist(p, ray) == h as int);
    // The hit point: origin plus h times straight down.
    lemma_div_tz_neg((h as int) * 65536, 65536);
    assert(mul_fx(h as int, -ONE as int) == div_tz((h as int) * (-65536), 65536));
    assert((h as int) * (-65536) == -((h as int) * 65536)) by (nonlinear_arith);
    assert(mul_fx(h as int, -ONE as int) == -(h as int));
    assert(mul_fx(h as int, 0) == 0) by {
        assert((h as int) * 0 == 0) by (nonlinear_arith);
    }
    assert(at_y(ray, h as int) == h + mul_fx(h as int, -ONE as int));
    assert(at_y(ray, h as int) == 0);
    assert(at_x(ray, h as int) == 0);
    assert(at_z(ray, h as int) == 0);
}

/// A ray parallel to a plane never hits it.
pub proof fn lemma_plane_parallel(h: i64)
    ensures
        ({
            let p = Plane { normal: Vec3 { x: 0i64, y: ONE, z: 0i64 }, size: 0i64 };
            let ray = Ray {
                origin: Vec3 { x: 0i64, y: h, z: 0i64 },
                direction: Vec3 { x: ONE, y: 0i64, z: 0i64 },
            };
            !plane_hits(p, ray)
        }),
{
    let p = Plane { normal: Vec3 { x: 0i64, y: ONE, z: 0i64 }, size: 0i64 };
    let ray = Ray {
        origin: Vec3 { x: 0i64, y: h, z: 0i64 },
        direction: Vec3 { x: ONE, y: 0i64, z: 0i64 },
    };
    assert(ray.direction.x * p.normal.x == 0 && ray.direction.y * p.normal.y == 0
        && ray.direction.z * p.normal.z == 0) by (nonlinear_arith)
        requires
            p.normal.x == 0 && ray.direction.y == 0 && ray.direction.z == 0,
    ;
    assert(plane_t(p, ray) == div_tz(0, 65536));
    lemma_div_tz_exact(0, 65536);
    assert(0int * 65536 == 0) by (nonlinear_arith);
    assert(plane_t(p, ray) == 0);
}

/// A ray aimed at a sphere of radius `r` centred at the origin, fired along
/// the axis from distance `d > r`, hits at distance exactly `d - r` with
/// the normal facing back along the axis.  Exact on the 1/256 grid, where
/// squares divide out with no remainder; off the grid the result may be one
/// raw unit off.
pub proof fn lemma_sphere_axis_distance(d: i64, radius: i64)
    requires
        512 <= radius <= SHAPE_RANGE,
        radius < d <= MAX_DIST,
        d % 256 == 0,
        radius % 256 == 0,
    ensures
        ({
            let s = Sphere { centre: Vec3 { x: 0i64, y: 0i64, z: 0i64 }, radius };
            let ray = Ray {
                origin: Vec3 { x: 0i64, y: 0i64, z: (-d) as i64 },
                direction: Vec3 { x: 0i64, y: 0i64, z: ONE },
            };
            &&& sph_hits(s, ray)
            &&& sph_res(s, ray) == d - radius
            &&& sph_norm(s, ray) == (Vec3 { x: 0i64, y: 0i64, z: (-ONE) as i64 })
        }),
{
    let s = Sphere { centre: Vec3 { x: 0i64, y: 0i64, z: 0i64 }, radius };
    let ray = Ray {
        origin: Vec3 { x: 0i64, y: 0i64, z: (-d) as i64 },
        direction: Vec3 { x: 0i64, y: 0i64, z: ONE },
    };
    let di = d as int;
    let ri = radius as int;
    // a = 1.
    lemma_div_tz_exact(ONE as int, ONE as int);
    assert((ONE as int) * (ONE as int) == 65536 * 65536);
    assert(sph_a(ray) == div_tz(65536int * 65536, 65536));
    assert(sph_a(ray) == 65536);
    // b = -2 d.
    assert(crate::shape::sph_to(s, ray) == (Vec3 { x: 0i64, y: 0i64, z: (-d) as i64 }));
    assert((ONE as int) * (-di) == -(di * 65536)) by (nonlinear_arith);
    lemma_div_tz_neg(di * 65536, 65536);
    lemma_div_tz_exact(di, 65536);
    assert(dot3(ray.direction, crate::shape::sph_to(s, ray)) == -di);
    assert(sph_b(s, ray) == -2 * di);
    // c = (d^2 - r^2) / ONE, exactly on the grid.
    assert((-di) * (-di) == di * di) by (nonlinear_arith);
    lemma_grid_square(di);
    lemma_grid_square(ri);
    let dm = div_tz(di * di, ONE as int);
    let rm = div_tz(ri * ri, ONE as int);
    assert(dm * 65536 == di * di);
    assert(rm * 65536 == ri * ri);
    assert(dot3(crate::shape::sph_to(s, ray), crate::shape::sph_to(s, ray)) == dm);
    assert(sph_c(s, ray) == dm - rm);
    // d2 = (2r)^2 / ONE.
    assert((-2 * di) * (-2 * di) == 4 * (di * di)) by (nonlinear_arith);
    assert(4 * (di * di) == (4 * dm) * 65536) by (nonlinear_arith)
        requires
            dm * 65536 == di * di,
    ;
    lemma_div_tz_exact(4 * dm, 65536);
    assert(mul_fx(sph_b(s, ray), sph_b(s, ray)) == 4 * dm);
    assert((dm - rm) * 65536 == (dm - rm) * 65536);
    lemma_div_tz_exact(dm - rm, 65536);
    assert((dm - rm) * (ONE as int) == (dm - rm) * 65536) by (nonlinear_arith)
        requires
            (ONE as int) == 65536,
    ;
    assert(mul_fx(sph_c(s, ray), sph_a(ray)) == div_tz((dm - rm) * 65536, 65536)) by {
        assert((dm - rm) * (65536 as int) == (dm - rm) * (ONE as int));
    }
    assert(mul_fx(sph_c(s, ray), sph_a(ray)) == dm - rm);
    assert(sph_d2(s, ray) == 4 * dm - 4 * (dm - rm));
    assert(sph_d2(s, ray) == 4 * rm);
    // d2 is comfortably above the epsilon gate.
    let mr = ri / 256;
    vstd::arithmetic::div_mod::lemma_fundamental_div_mod(ri, 256);
    assert(rm == mr * mr) by (nonlinear_arith)
        requires
            ri == 256 * mr,
            rm * 65536 == ri * ri,
    ;
    assert(mr >= 2);
    assert(rm >= 4) by (nonlinear_arith)
        requires
            rm == mr * mr,
            mr >= 2,
    ;
    assert(sph_d2(s, ray) >= EPS as int);
    // sqrt(d2) = 2r exactly.
    assert((4 * rm) * 65536 == (2 * ri) * (2 * ri)) by (nonlinear_arith)
        requires
            rm * 65536 == ri * ri,
    ;
    assert(sqrt_fx(4 * rm) == isqrt(((2 * ri) * (2 * ri)) as nat) as int);
    assert(((2 * ri) * (2 * ri)) as nat == ((2 * ri) as nat) * ((2 * ri) as nat))
        by (nonlinear_arith)
        requires
            ri >= 512,
    ;
    lemma_isqrt_square((2 * ri) as nat);
    assert(sqrt_fx(sph_d2(s, ray)) == 2 * ri);
    // The near root is (2d - 2r) / 2 = d - r.
    assert(-sph_b(s, ray) - 2 * ri == 2 * di - 2 * ri);
    assert((2 * di - 2 * ri) * 65536 == (di - ri) * (2 * 65536)) by (nonlinear_arith);
    lemma_div_tz_exact(di - ri, 2int * 65536);
    assert(div_fx(2 * di - 2 * ri, 2 * (ONE as int)) == di - ri);
    assert(sph_res(s, ray) == di - ri) by {
        assert(di - ri >= 256);
        assert(div_fx(-sph_b(s, ray) - sqrt_fx(sph_d2(s, ray)), 2 * sph_a(ray)) == di - ri);
    }
    // The hit point is (0, 0, -r) and the normal (0, 0, -1).
    assert(mul_fx(di - ri, 0) == 0) by {
        assert((di - ri) * 0 == 0) by (nonlinear_arith);
    }
    assert(mul_fx(di - ri, ONE as int) == di - ri) by {
        lemma_div_tz_exact(di - ri, 65536);
        assert((di - ri) * (ONE as int) == (di - ri) * 65536) by (nonlinear_arith);
    }
    assert(at_x(ray, di - ri) == 0);
    assert(at_y(ray, di - ri) == 0);
    assert(at_z(ray, di - ri) == -ri);
    assert(div_fx(0 - 0, ri) == div_tz(0, ri));
    assert(0 * (ONE as int) == 0) by (nonlinear_arith);
    assert(sph_norm(s, ray).x == 0 && sph_norm(s, ray).y == 0);
    assert(div_fx(-ri - 0, ri) == -(ONE as int)) by {
        assert((-ri) * (ONE as int) == -(ri * 65536)) by (nonlinear_arith)
            requires
                (ONE as int) == 65536,
        ;
        lemma_div_tz_neg(ri * 65536, ri);
        assert(ri * 65536 == 65536 * ri) by (nonlinear_arith);
        lemma_div_tz_exact(65536, ri);
    }
    assert(sph_norm(s, ray).z == -(ONE as int));
}

/// A single light sphere of unit radius, five units straight ahead: the
/// axial ray from the origin resolves to that light at distance four.
/// Together with the integrator's light clause, a trace of this scene with
/// any positive depth returns exactly the light's emission scaled by the
/// base colour.
pub proof fn lemma_single_light_ahead(intensity: i64, colour: crate::vector::Colour)
    ensures
        ({
            let obj = Object::General(
                GeneralObject {
                    shape: Shape::Sphere(
                        Sphere { centre: Vec3 { x: 0i64, y: 0i64, z: 327680i64 }, radius: ONE },
                    ),
                    material: Material::Light(intensity),
                    colour,
                },
            );
            let scene = seq![obj];
            let ray = Ray {
                origin: Vec3 { x: 0i64, y: 0i64, z: 0i64 },
                direction: Vec3 { x: 0i64, y: 0i64, z: ONE },
            };
            &&& scene_hit_det(scene, ray) is Some
            &&& scene_hit_det(scene, ray)->Some_0.material == Material::Light(intensity)
            &&& scene_hit_det(scene, ray)->Some_0.colour == colour
            &&& scene_hit_det(scene, ray)->Some_0.dist == 4 * ONE
        }),
{
    let sp = Sphere { centre: Vec3 { x: 0i64, y: 0i64, z: 327680i64 }, radius: ONE };
    let ray = Ray {
        origin: Vec3 { x: 0i64, y: 0i64, z: 0i64 },
        direction: Vec3 { x: 0i64, y: 0i64, z: ONE },
    };
    // a = 1.
    lemma_div_tz_exact(ONE as int, ONE as int);
    assert((ONE as int) * (ONE as int) == 65536int * 65536);
    assert(sph_a(ray) == div_tz(65536int * 65536, 65536));
    assert(sph_a(ray) == 65536);
    // to = (0, 0, -5), b = -10.
    assert(crate::shape::sph_to(sp, ray) == (Vec3 { x: 0i64, y: 0i64, z: (-327680) as i64 }));
    assert((ONE as int) * (-327680) == -(327680int * 65536)) by (nonlinear_arith);
    lemma_div_tz_neg(327680int * 65536, 65536);
    lemma_div_tz_exact(327680, 65536);
    assert(dot3(ray.direction, crate::shape::sph_to(sp, ray)) == -327680);
    assert(sph_b(sp, ray) == -655360);
    // c = 25 - 1 = 24 (scaled).
    assert((-327680int) * (-327680) == 1638400int * 65536) by (nonlinear_arith);
    lemma_div_tz_exact(1638400, 65536);
    assert(dot3(crate::shape::sph_to(sp, ray), crate::shape::sph_to(sp, ray)) == 1638400);
    assert((ONE as int) * (ONE as int) == 65536int * 65536) by (nonlinear_arith);
    assert(mul_fx(ONE as int, ONE as int) == 65536);
    assert(sph_c(sp, ray) == 1572864);
    // d2 = 100 - 96 = 4 (scaled).
    assert((-655360int) * (-655360) == 6553600int * 65536) by (nonlinear_arith);
    lemma_div_tz_exact(6553600, 65536);
    assert(mul_fx(sph_b(sp, ray), sph_b(sp, ray)) == 6553600);
    assert(1572864int * 65536 == 1572864int * 65536) by (nonlinear_arith);
    lemma_div_tz_exact(1572864, 65536);
    assert(mul_fx(sph_c(sp, ray), sph_a(ray)) == 1572864);
    assert(sph_d2(sp, ray) == 262144);
    // sqrt(d2) = 2, res = (10 - 2) / 2 = 4.
    assert((262144int * 65536) as nat == 131072nat * 131072) by (nonlinear_arith);
    lemma_isqrt_square(131072nat);
    assert(sqrt_fx(262144) == 131072);
    assert(524288int * 65536 == 262144int * 131072) by (nonlinear_arith);
    lemma_div_tz_exact_den(262144, 131072);
    assert(div_fx(524288, 131072) == 262144);
    assert(sph_res(sp, ray) == 262144);
    // The hit point is (0, 0, 4) and the normal (0, 0, -1).
    assert((262144int) * 0 == 0) by (nonlinear_arith);
    lemma_div_tz_exact(0, 65536);
    assert(0int * 65536 == 0) by (nonlinear_arith);
    assert(mul_fx(262144, 0) == 0);
    assert(262144int * 65536 == 262144int * 65536) by (nonlinear_arith);
    lemma_div_tz_exact(262144, 65536);
    assert(mul_fx(262144, ONE as int) == 262144);
    assert(at_x(ray, 262144) == 0 && at_y(ray, 262144) == 0 && at_z(ray, 262144) == 262144);
    assert((-65536int) * 65536 == -(65536int * 65536)) by (nonlinear_arith);
    lemma_div_tz_neg(65536int * 65536, 65536);
    assert(div_fx(-65536, 65536) == -65536);
    assert(div_fx(0, 65536) == 0);
    assert(crate::shape::sph_norm(sp, ray) == (Vec3 { x: 0i64, y: 0i64, z: (-65536) as i64 }));
    assert(crate::shape::sph_hits(sp, ray));
    // The one-object scene resolves to this hit.
    let obj = Object::General(
        GeneralObject {
            shape: Shape::Sphere(sp),
            material: Material::Light(intensity),
            colour,
        },
    );
    let scene = seq![obj];
    assert(scene.drop_last() =~= Seq::<Object>::empty());
    assert(scene.last() == obj);
    assert(scene_hit_det(scene.drop_last(), ray) is None);
    assert(crate::shape::shape_hits(Shape::Sphere(sp), ray));
    assert(crate::object::object_hit_det(obj, ray) is Some);
}

/// `(k b) / b == k` with the multiple written on the left.
proof fn lemma_div_tz_exact_den(k: int, b: int)
    requires
        b > 0,
    ensures
        div_tz(k * b, b) == k,
        k >= 0 ==> (k * b) / b == k,
{
    lemma_div_tz_exact(k, b);
    if k >= 0 {
        assert(k * b >= 0) by (nonlinear_arith)
            requires k >= 0 && b > 0;
    }
}

/// Mirror reflection is involutive at normal incidence: a ray straight into
/// a unit normal reflects exactly back along itself.
pub proof fn lemma_reflect_normal_incidence(n: Vec3, u: Vec3)
    requires
        bounded(n, 2 * ONE as int),
        dot3(n, n) == ONE,
        u.x == -n.x && u.y == -n.y && u.z == -n.z,
    ensures
        u.x - mul_fx(2 * dot3(u, n), n.x as int) == n.x,
        u.y - mul_fx(2 * dot3(u, n), n.y as int) == n.y,
        u.z - mul_fx(2 * dot3(u, n), n.z as int) == n.z,
{
    crate::sample::lemma_dot_neg(n, n, u);
    assert(dot3(u, n) == -(ONE as int));
    assert(mul_fx(-2 * (ONE as int), n.x as int) == -2 * (n.x as int)) by {
        lemma_fx_mul_whole(n.x as int);
    }
    assert(mul_fx(-2 * (ONE as int), n.y as int) == -2 * (n.y as int)) by {
        lemma_fx_mul_whole(n.y as int);
    }
    assert(mul_fx(-2 * (ONE as int), n.z as int) == -2 * (n.z as int)) by {
        lemma_fx_mul_whole(n.z as int);
    }
}

/// `(-2) * x` in fixed point is exact.
proof fn lemma_fx_mul_whole(x: int)
    ensures
        mul_fx(-2 * (ONE as int), x) == -2 * x,
{
    assert((-2 * (ONE as int)) * x == (-2 * x) * (ONE as int)) by (nonlinear_arith);
    lemma_div_tz_exact(-2 * x, ONE as int);
}

/// A dielectric interface with refractive index one bends nothing: the
/// refracted ray equals the incoming ray, exactly when the incidence cosine
/// lies on the 1/256 grid (and is nonzero, so the discriminant is positive).
pub proof fn lemma_refract_identity(v: Vec3, n: Vec3)
    requires
        dot3(v, n) % 256 == 0,
        dot3(v, n) != 0,
        in_range(dot3(v, n), 0x1000_0000),
        in_range(v.x as int, 0x1_0000_0000),
        in_range(v.y as int, 0x1_0000_0000),
        in_range(v.z as int, 0x1_0000_0000),
    ensures
        refract_disc(v, n, ONE as int) > 0,
        refract_vec(v, n, ONE as int) == v,
{
    let dt = dot3(v, n);
    lemma_grid_square(dt);
    let q = mul_fx(dt, dt);
    // mul_fx(1, 1) == 1 and mul_fx(x, 1) == x.
    lemma_one_mul(ONE as int);
    lemma_one_mul((ONE as int) - q);
    assert(refract_disc(v, n, ONE as int) == q);
    let m = dt / 256;
    vstd::arithmetic::div_mod::lemma_fundamental_div_mod(dt, 256);
    assert(q == m * m && m != 0) by (nonlinear_arith)
        requires
            dt == 256 * m,
            dt != 0,
            q * 65536 == dt * dt,
    ;
    assert(q >= 1) by (nonlinear_arith)
        requires
            q == m * m,
            m != 0,
    ;
    // sqrt(disc) recovers |dt| exactly.
    assert(q * (ONE as int) == abs_i(dt) * abs_i(dt)) by (nonlinear_arith)
        requires
            q * 65536 == dt * dt,
            (ONE as int) == 65536,
    ;
    assert((q * (ONE as int)) as nat == (abs_i(dt) as nat) * (abs_i(dt) as nat))
        by (nonlinear_arith)
        requires
            q * (ONE as int) == abs_i(dt) * abs_i(dt),
            0 <= abs_i(dt),
    ;
    lemma_isqrt_square(abs_i(dt) as nat);
    assert(sqrt_fx(q) == abs_i(dt));
    lemma_refract_comp(v.x as int, n.x as int, dt);
    lemma_refract_comp(v.y as int, n.y as int, dt);
    lemma_refract_comp(v.z as int, n.z as int, dt);
}

/// `mul_fx(1, x) == x`.
proof fn lemma_one_mul(x: int)
    ensures
        mul_fx(ONE as int, x) == x,
        mul_fx(x, ONE as int) == x,
{
    assert((ONE as int) * x == x * (ONE as int)) by (nonlinear_arith);
    lemma_div_tz_exact(x, ONE as int);
}

/// One component of the identity refraction: adding and subtracting the
/// same normal term gives the component back.
proof fn lemma_refract_comp(vc: int, nc: int, dt: int)
    requires
        in_range(vc, 0x1_0000_0000),
        sqrt_fx(mul_fx(dt, dt)) == abs_i(dt),
    ensures
        mul_fx(ONE as int, vc + mul_fx(abs_i(dt), nc)) - mul_fx(abs_i(dt), nc) == vc,
{
    lemma_one_mul(vc + mul_fx(abs_i(dt), nc));
}

/// Translating a camera by the zero offset is a no-op.
pub proof fn lemma_translate_zero(position: Vec3, looking: Vec3, side: Vec3, up: Vec3)
    requires
        bounded(position, CAM_RANGE as int),
    ensures
        translate_spec(
            position,
            Vec3 { x: 0i64, y: 0i64, z: 0i64 },
            looking,
            side,
            up,
        ) == position,
{
    let z = Vec3 { x: 0i64, y: 0i64, z: 0i64 };
    lemma_zero_mul(looking.x as int);
    lemma_zero_mul(looking.y as int);
    lemma_zero_mul(looking.z as int);
    lemma_zero_mul(side.x as int);
    lemma_zero_mul(side.y as int);
    lemma_zero_mul(side.z as int);
    lemma_zero_mul(up.x as int);
    lemma_zero_mul(up.y as int);
    lemma_zero_mul(up.z as int);
    assert(cam_offset(z, looking, side, up) == (Vec3 { x: 0i64, y: 0i64, z: 0i64 }));
}

proof fn lemma_zero_mul(x: int)
    ensures
        mul_fx(0, x) == 0,
{
    assert(0 * x == 0) by (nonlinear_arith);
}

/// The basis offset is odd in the local offset: negating the offset negates
/// the world-space move.
pub proof fn lemma_offset_antisym(d: Vec3, nd: Vec3, looking: Vec3, side: Vec3, up: Vec3)
    requires
        nd.x == -d.x && nd.y == -d.y && nd.z == -d.z,
        bounded(d, 0x100_0000),
        bounded(looking, 2 * ONE as int),
        bounded(side, 2 * ONE as int),
        bounded(up, 8 * ONE as int),
    ensures
        cam_offset(nd, looking, side, up).x == -cam_offset(d, looking, side, up).x,
        cam_offset(nd, looking, side, up).y == -cam_offset(d, looking, side, up).y,
        cam_offset(nd, looking, side, up).z == -cam_offset(d, looking, side, up).z,
{
    lemma_offset_in_range(d, looking, side, up);
    lemma_offset_in_range(nd, looking, side, up);
    lemma_mul_fx_neg(d.x as int, looking.x as int);
    lemma_mul_fx_neg(d.x as int, looking.y as int);
    lemma_mul_fx_neg(d.x as int, looking.z as int);
    lemma_mul_fx_neg(d.y as int, side.x as int);
    lemma_mul_fx_neg(d.y as int, side.y as int);
    lemma_mul_fx_neg(d.y as int, side.z as int);
    lemma_mul_fx_neg(d.z as int, up.x as int);
    lemma_mul_fx_neg(d.z as int, up.y as int);
    lemma_mul_fx_neg(d.z as int, up.z as int);
}

/// Each component sum of a basis offset stays well within `i64`.
proof fn lemma_offset_in_range(d: Vec3, looking: Vec3, side: Vec3, up: Vec3)
    requires
        bounded(d, 0x100_0000),
        bounded(looking, 2 * ONE as int),
        bounded(side, 2 * ONE as int),
        bounded(up, 8 * ONE as int),
    ensures
        in_range(
            mul_fx(d.x as int, looking.x as int) + mul_fx(d.y as int, side.x as int) + mul_fx(
                d.z as int,
                up.x as int,
            ),
            0x1000_0000_0000,
        ),
        in_range(
            mul_fx(d.x as int, looking.y as int) + mul_fx(d.y as int, side.y as int) + mul_fx(
                d.z as int,
                up.y as int,
            ),
            0x1000_0000_0000,
        ),
        in_range(
            mul_fx(d.x as int, looking.z as int) + mul_fx(d.y as int, side.z as int) + mul_fx(
                d.z as int,
                up.z as int,
            ),
            0x1000_0000_0000,
        ),
{
    crate::fixed::lemma_mul_fx_bound(d.x as int, looking.x as int, 0x100_0000, 131072);
    crate::fixed::lemma_mul_fx_bound(d.x as int, looking.y as int, 0x100_0000, 131072);
    crate::fixed::lemma_mul_fx_bound(d.x as int, looking.z as int, 0x100_0000, 131072);
    crate::fixed::lemma_mul_fx_bound(d.y as int, side.x as int, 0x100_0000, 131072);
    crate::fixed::lemma_mul_fx_bound(d.y as int, side.y as int, 0x100_0000, 131072);
    crate::fixed::lemma_mul_fx_bound(d.y as int, side.z as int, 0x100_0000, 131072);
    crate::fixed::lemma_mul_fx_bound(d.z as int, up.x as int, 0x100_0000, 524288);
    crate::fixed::lemma_mul_fx_bound(d.z as int, up.y as int, 0x100_0000, 524288);
    crate::fixed::lemma_mul_fx_bound(d.z as int, up.z as int, 0x100_0000, 524288);
}

/// Fixed-point products are odd in either factor.
proof fn lemma_mul_fx_neg(a: int, b: int)
    ensures
        mul_fx(-a, b) == -mul_fx(a, b),
{
    assert((-a) * b == -(a * b)) by (nonlinear_arith);
    lemma_div_tz_neg(a * b, ONE as int);
}

/// Translating and then translating back by the negated offset returns the
/// camera to its original position, whenever the first move stayed within
/// the world bound.
pub proof fn lemma_translate_roundtrip(
    position: Vec3,
    d: Vec3,
    nd: Vec3,
    looking: Vec3,
    side: Vec3,
    up: Vec3,
)
    requires
        bounded(position, CAM_RANGE as int),
        nd.x == -d.x && nd.y == -d.y && nd.z == -d.z,
        bounded(d, 0x100_0000),
        bounded(looking, 2 * ONE as int),
        bounded(side, 2 * ONE as int),
        bounded(up, 8 * ONE as int),
        translate_spec(position, d, looking, side, up) != position || cam_offset(
            d,
            looking,
            side,
            up,
        ) == (Vec3 { x: 0i64, y: 0i64, z: 0i64 }),
    ensures
        translate_spec(
            translate_spec(position, d, looking, side, up),
            nd,
            looking,
            side,
            up,
        ) == position,
{
    lemma_offset_antisym(d, nd, looking, side, up);
    lemma_offset_in_range(d, looking, side, up);
    let o = cam_offset(d, looking, side, up);
    let no = cam_offset(nd, looking, side, up);
    let p1 = translate_spec(position, d, looking, side, up);
    assert(no.x == -o.x && no.y == -o.y && no.z == -o.z);
    if o == (Vec3 { x: 0i64, y: 0i64, z: 0i64 }) {
        assert(p1 == position);
        assert(no == (Vec3 { x: 0i64, y: 0i64, z: 0i64 }));
        assert(translate_spec(p1, nd, looking, side, up) == position);
    } else {
        assert(p1 == (Vec3 {
            x: (position.x + o.x) as i64,
            y: (position.y + o.y) as i64,
            z: (position.z + o.z) as i64,
        }));
        assert(bounded(p1, CAM_RANGE as int));
        let p2 = Vec3 {
            x: (p1.x + no.x) as i64,
            y: (p1.y + no.y) as i64,
            z: (p1.z + no.z) as i64,
        };
        assert(p2 == position);
        assert(translate_spec(p1, nd, looking, side, up) == p2);
    }
}

} // verus!
