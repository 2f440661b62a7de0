//! Analytic shapes and ray intersection: triangle, sphere, plane.
//!
//! Every intersection contract is exact: spec functions mirror the
//! fixed-point computation step by step, and `intersect` returns a hit if
//! and only if the spec-level conditions hold.  Degenerate cases (grazing
//! rays, hits beyond the far bound, points or normals outside the finite
//! world) are gated and count as misses rather than producing garbage.

use vstd::prelude::*;

verus! {

use crate::fixed::{
    ONE, EPS, in_range, mul_fx, div_fx, sqrt_fx, fx_mul, fx_div, fx_sqrt, abs_i,
    lemma_mul_fx_bound,
};
use crate::vector::{
    Vec3, Ray, bounded, dot3, cross_x, cross_y, cross_z, dot, cross, DIR_RANGE, NSQ_MIN,
    lemma_dot_bound,
};

/// Magnitude bound for scene geometry coordinates (1024.0).
pub const SHAPE_RANGE: i64 = 0x400_0000;

/// Magnitude bound for ray origins (4096.0).
pub const ORG_RANGE: i64 = 0x1000_0000;

/// Magnitude bound for accepted hit points (2048.0).
pub const PT_RANGE: i64 = 0x800_0000;

/// Magnitude bound for a plane's signed offset from the origin.
pub const SIZE_RANGE: i64 = 0x4000_0000;

/// Farthest accepted hit distance (1024.0).
pub const MAX_DIST: i64 = 0x400_0000;

/// Least accepted sphere radius (1/256).
pub const RAD_MIN: i64 = 256;

/// Tolerance of the triangle inside/outside edge tests.
pub const EDGE_TOL: i64 = 80;

/// Information about a ray/shape intersection: distance along the ray, the
/// world point, and the surface normal there.
#[derive(Clone, Copy, PartialEq, Eq, Structural, Debug)]
pub struct Hit {
    pub dist: i64,
    pub point: Vec3,
    pub norm: Vec3,
}

/// A ray whose origin and direction are within the finite world.
pub open spec fn wf_ray(ray: Ray) -> bool {
    bounded(ray.origin, ORG_RANGE as int) && bounded(ray.direction, DIR_RANGE as int)
}

/// The point `origin + t * direction`, one coordinate at a time.
pub open spec fn at_x(ray: Ray, t: int) -> int {
    ray.origin.x + mul_fx(t, ray.direction.x as int)
}

pub open spec fn at_y(ray: Ray, t: int) -> int {
    ray.origin.y + mul_fx(t, ray.direction.y as int)
}

pub open spec fn at_z(ray: Ray, t: int) -> int {
    ray.origin.z + mul_fx(t, ray.direction.z as int)
}

/// The point `origin + t * direction`, as a vector.
pub open spec fn at_pt(ray: Ray, t: int) -> Vec3 {
    Vec3 { x: at_x(ray, t) as i64, y: at_y(ray, t) as i64, z: at_z(ray, t) as i64 }
}

/// The evaluated point lies within the accepted world.
pub open spec fn pt_ok(ray: Ray, t: int) -> bool {
    in_range(at_x(ray, t), PT_RANGE as int) && in_range(at_y(ray, t), PT_RANGE as int)
        && in_range(at_z(ray, t), PT_RANGE as int)
}

/// Component-wise vector difference, at spec level.
pub open spec fn vsub(u: Vec3, v: Vec3) -> Vec3 {
    Vec3 { x: (u.x - v.x) as i64, y: (u.y - v.y) as i64, z: (u.z - v.z) as i64 }
}

/// Cross product, at spec level.
pub open spec fn vcross(u: Vec3, v: Vec3) -> Vec3 {
    Vec3 { x: cross_x(u, v) as i64, y: cross_y(u, v) as i64, z: cross_z(u, v) as i64 }
}

/// Runtime check matching `bounded(v, PT_RANGE)`.
fn pt_in_range(v: Vec3) -> (r: bool)
    ensures
        r == bounded(v, PT_RANGE as int),
{
    -PT_RANGE <= v.x && v.x <= PT_RANGE && -PT_RANGE <= v.y && v.y <= PT_RANGE && -PT_RANGE
        <= v.z && v.z <= PT_RANGE
}

/// Runtime check matching `wf_ray`.
pub fn ray_ok(ray: Ray) -> (r: bool)
    ensures
        r == wf_ray(ray),
{
    -ORG_RANGE <= ray.origin.x && ray.origin.x <= ORG_RANGE && -ORG_RANGE <= ray.origin.y
        && ray.origin.y <= ORG_RANGE && -ORG_RANGE <= ray.origin.z && ray.origin.z <= ORG_RANGE
        && -DIR_RANGE <= ray.direction.x && ray.direction.x <= DIR_RANGE && -DIR_RANGE
        <= ray.direction.y && ray.direction.y <= DIR_RANGE && -DIR_RANGE <= ray.direction.z
        && ray.direction.z <= DIR_RANGE
}

/// A triangle with a precomputed unit normal; single-sided.
#[derive(Clone, Copy, PartialEq, Eq, Structural, Debug)]
pub struct Triangle {
    pub a: Vec3,
    pub b: Vec3,
    pub c: Vec3,
    pub normal: Vec3,
}

/// A sphere given by centre and radius.
#[derive(Clone, Copy, PartialEq, Eq, Structural, Debug)]
pub struct Sphere {
    pub centre: Vec3,
    pub radius: i64,
}

/// An infinite plane: unit normal plus signed offset from the origin;
/// intersects on both sides.
#[derive(Clone, Copy, PartialEq, Eq, Structural, Debug)]
pub struct Plane {
    pub normal: Vec3,
    pub size: i64,
}

/// A primitive: the closed set of shapes the tracer intersects.
#[derive(Clone, Copy, PartialEq, Eq, Structural, Debug)]
pub enum Shape {
    Triangle(Triangle),
    Sphere(Sphere),
    Plane(Plane),
}

pub open spec fn wf_triangle(t: Triangle) -> bool {
    &&& bounded(t.a, SHAPE_RANGE as int)
    &&& bounded(t.b, SHAPE_RANGE as int)
    &&& bounded(t.c, SHAPE_RANGE as int)
    &&& bounded(t.normal, 2 * ONE as int)
}

pub open spec fn wf_sphere(s: Sphere) -> bool {
    &&& bounded(s.centre, SHAPE_RANGE as int)
    &&& RAD_MIN <= s.radius <= SHAPE_RANGE
}

pub open spec fn wf_plane(p: Plane) -> bool {
    &&& bounded(p.normal, 2 * ONE as int)
    &&& in_range(p.size as int, SIZE_RANGE as int)
}

pub open spec fn wf_shape(s: Shape) -> bool {
    match s {
        Shape::Triangle(t) => wf_triangle(t),
        Shape::Sphere(s) => wf_sphere(s),
        Shape::Plane(p) => wf_plane(p),
    }
}

// ---------------------------------------------------------------- plane

/// The denominator `direction . normal` of the plane intersection.
pub open spec fn plane_t(p: Plane, ray: Ray) -> int {
    dot3(ray.direction, p.normal)
}

/// The plane hit distance `(size - normal . origin) / (direction . normal)`.
pub open spec fn plane_dist(p: Plane, ray: Ray) -> int {
    div_fx(p.size - dot3(p.normal, ray.origin), plane_t(p, ray))
}

/// The plane is hit: the ray is not parallel, the hit is in front of the
/// origin, and distance and point are within the finite world.
pub open spec fn plane_hits(p: Plane, ray: Ray) -> bool {
    &&& plane_t(p, ray) != 0
    &&& 0 < plane_dist(p, ray) <= MAX_DIST
    &&& pt_ok(ray, plane_dist(p, ray))
}

/// The hit record of a plane intersection.
pub open spec fn plane_hit(p: Plane, ray: Ray) -> Hit {
    Hit { dist: plane_dist(p, ray) as i64, point: at_pt(ray, plane_dist(p, ray)), norm: p.normal }
}

impl Plane {
    /// A plane through `point` with the given (unit) normal.
    pub fn new(normal: Vec3, point: Vec3) -> (r: Plane)
        requires
            bounded(normal, 2 * ONE as int),
            bounded(point, SHAPE_RANGE as int),
        ensures
            r.normal == normal,
            r.size == dot3(normal, point),
            wf_plane(r),
    {
        proof {
            lemma_dot_bound(normal, point, 131072, 0x400_0000);
        }
        Plane { normal, size: dot(normal, point) }
    }

    pub fn intersect(&self, ray: Ray) -> (r: Option<Hit>)
        requires
            wf_plane(*self),
            wf_ray(ray),
        ensures
            r == if plane_hits(*self, ray) {
                Some(plane_hit(*self, ray))
            } else {
                None::<Hit>
            },
    {
        let t = dot(ray.direction, self.normal);
        if t != 0 {
            proof {
                lemma_dot_bound(self.normal, ray.origin, 131072, 0x1000_0000);
            }
            let num = self.size - dot(self.normal, ray.origin);
            let dist = fx_div(num, t);
            if dist > 0 && dist <= MAX_DIST {
                let point = ray.eval(dist);
                if pt_in_range(point) {
                    Some(Hit { dist, point, norm: self.normal })
                } else {
                    // Hit beyond the accepted world: treated as a miss.
                    None
                }
            } else {
                None
            }
        } else {
            // Ray parallel to the plane.
            None
        }
    }
}

// ---------------------------------------------------------------- triangle

/// Largest vertex magnitude accepted when building a triangle (128.0); the
/// raw cross product of larger triangles would overflow the normalisation.
pub const TRI_RANGE: i64 = 0x80_0000;

/// The denominator `direction . normal` of the triangle's plane test.
pub open spec fn tri_nd(t: Triangle, ray: Ray) -> int {
    dot3(ray.direction, t.normal)
}

/// The distance to the triangle's supporting plane.
pub open spec fn tri_dist(t: Triangle, ray: Ray) -> int {
    div_fx(dot3(t.a, t.normal) - dot3(ray.origin, t.normal), tri_nd(t, ray))
}

/// One edge test: the signed volume of (hit - v0, v1 - v0) against the
/// normal; non-positive (within tolerance) means inside that edge.
pub open spec fn tri_edge(t: Triangle, ray: Ray, v0: Vec3, v1: Vec3) -> int {
    dot3(t.normal, vcross(vsub(at_pt(ray, tri_dist(t, ray)), v0), vsub(v1, v0)))
}

/// The triangle is hit: the ray is not near-parallel to its plane, the hit
/// is in front of the origin and within the finite world, and all three
/// edge tests pass within tolerance.
pub open spec fn tri_hits(t: Triangle, ray: Ray) -> bool {
    &&& abs_i(tri_nd(t, ray)) > EPS
    &&& EPS < tri_dist(t, ray) <= MAX_DIST
    &&& pt_ok(ray, tri_dist(t, ray))
    &&& tri_edge(t, ray, t.a, t.b) <= EDGE_TOL
    &&& tri_edge(t, ray, t.b, t.c) <= EDGE_TOL
    &&& tri_edge(t, ray, t.c, t.a) <= EDGE_TOL
}

/// The hit record of a triangle intersection.
pub open spec fn tri_hit(t: Triangle, ray: Ray) -> Hit {
    Hit { dist: tri_dist(t, ray) as i64, point: at_pt(ray, tri_dist(t, ray)), norm: t.normal }
}

impl Triangle {
    /// What `new` builds: the vertices with the unit normal of their edges'
    /// cross product.
    pub open spec fn new_spec(a: Vec3, b: Vec3, c: Vec3) -> Triangle {
        Triangle { a, b, c, normal: crate::vector::unitv(vcross(vsub(b, a), vsub(c, a))) }
    }

    /// A triangle from three vertices, with its unit normal precomputed;
    /// the vertices must not be (nearly) collinear.
    pub fn new(a: Vec3, b: Vec3, c: Vec3) -> (r: Triangle)
        requires
            bounded(a, TRI_RANGE as int),
            bounded(b, TRI_RANGE as int),
            bounded(c, TRI_RANGE as int),
            dot3(vcross(vsub(b, a), vsub(c, a)), vcross(vsub(b, a), vsub(c, a))) >= NSQ_MIN as int,
        ensures
            r == Triangle::new_spec(a, b, c),
            wf_triangle(r),
    {
        let e1 = b.sub(a);
        let e2 = c.sub(a);
        let cr = cross(e1, e2);
        proof {
            crate::vector::lemma_cross_bound(e1, e2, 0x100_0000, 0x100_0000);
        }
        let normal = cr.normalise();
        Triangle { a, b, c, normal }
    }

    pub fn intersect(&self, ray: Ray) -> (r: Option<Hit>)
        requires
            wf_triangle(*self),
            wf_ray(ray),
        ensures
            r == if tri_hits(*self, ray) {
                Some(tri_hit(*self, ray))
            } else {
                None::<Hit>
            },
    {
        let nd = dot(ray.direction, self.normal);
        proof {
            lemma_dot_bound(ray.direction, self.normal, 0x40_0000, 131072);
        }
        let abs_nd = crate::fixed::fx_abs(nd);
        if abs_nd > EPS {
            let no = dot(ray.origin, self.normal);
            let na = dot(self.a, self.normal);
            proof {
                lemma_dot_bound(ray.origin, self.normal, 0x1000_0000, 131072);
                lemma_dot_bound(self.a, self.normal, 0x400_0000, 131072);
            }
            let dist = fx_div(na - no, nd);
            if EPS < dist && dist <= MAX_DIST {
                let point = ray.eval(dist);
                proof {
                    lemma_mul_fx_bound(dist as int, ray.direction.x as int, 0x400_0000, 0x40_0000);
                    lemma_mul_fx_bound(dist as int, ray.direction.y as int, 0x400_0000, 0x40_0000);
                    lemma_mul_fx_bound(dist as int, ray.direction.z as int, 0x400_0000, 0x40_0000);
                }
                if pt_in_range(point) {
                    let pa = point.sub(self.a);
                    let pb = point.sub(self.b);
                    let pc = point.sub(self.c);
                    let eab = self.b.sub(self.a);
                    let ebc = self.c.sub(self.b);
                    let eca = self.a.sub(self.c);
                    let c1 = cross(pa, eab);
                    let c2 = cross(pb, ebc);
                    let c3 = cross(pc, eca);
                    proof {
                        crate::vector::lemma_cross_bound(pa, eab, 0xC00_0000, 0xC00_0000);
                        crate::vector::lemma_cross_bound(pb, ebc, 0xC00_0000, 0xC00_0000);
                        crate::vector::lemma_cross_bound(pc, eca, 0xC00_0000, 0xC00_0000);
                    }
                    let e1 = dot(self.normal, c1);
                    let e2 = dot(self.normal, c2);
                    let e3 = dot(self.normal, c3);
                    if e1 <= EDGE_TOL && e2 <= EDGE_TOL && e3 <= EDGE_TOL {
                        Some(Hit { dist, point, norm: self.normal })
                    } else {
                        // Outside one of the edges.
                        None
                    }
                } else {
                    // Hit beyond the accepted world: treated as a miss.
                    None
                }
            } else {
                None
            }
        } else {
            // Ray near-parallel to the triangle's plane.
            None
        }
    }
}

// ---------------------------------------------------------------- sphere

/// The quadratic coefficient `direction . direction`.
pub open spec fn sph_a(ray: Ray) -> int {
    dot3(ray.direction, ray.direction)
}

/// The origin-to-centre offset.
pub open spec fn sph_to(s: Sphere, ray: Ray) -> Vec3 {
    vsub(ray.origin, s.centre)
}

/// The linear coefficient `2 (direction . to)`.
pub open spec fn sph_b(s: Sphere, ray: Ray) -> int {
    2 * dot3(ray.direction, sph_to(s, ray))
}

/// The constant coefficient `to . to - radius^2`.
pub open spec fn sph_c(s: Sphere, ray: Ray) -> int {
    dot3(sph_to(s, ray), sph_to(s, ray)) - mul_fx(s.radius as int, s.radius as int)
}

/// The discriminant `b^2 - 4 a c`.
pub open spec fn sph_d2(s: Sphere, ray: Ray) -> int {
    mul_fx(sph_b(s, ray), sph_b(s, ray)) - 4 * mul_fx(sph_c(s, ray), sph_a(ray))
}

/// The chosen root: the nearer one if it is in front of the origin, else
/// the farther one.
pub open spec fn sph_res(s: Sphere, ray: Ray) -> int {
    let sq = sqrt_fx(sph_d2(s, ray));
    let r1 = div_fx(-sph_b(s, ray) - sq, 2 * sph_a(ray));
    if r1 < EPS {
        div_fx(-sph_b(s, ray) + sq, 2 * sph_a(ray))
    } else {
        r1
    }
}

/// The outward unit normal at the hit point: `(point - centre) / radius`.
pub open spec fn sph_norm(s: Sphere, ray: Ray) -> Vec3 {
    let t = sph_res(s, ray);
    Vec3 {
        x: div_fx(at_x(ray, t) - s.centre.x, s.radius as int) as i64,
        y: div_fx(at_y(ray, t) - s.centre.y, s.radius as int) as i64,
        z: div_fx(at_z(ray, t) - s.centre.z, s.radius as int) as i64,
    }
}

/// The sphere is hit: positive discriminant, a non-degenerate direction, a
/// root in front of the origin, and distance, point and normal within the
/// finite world.
pub open spec fn sph_hits(s: Sphere, ray: Ray) -> bool {
    &&& sph_d2(s, ray) >= EPS
    &&& sph_a(ray) != 0
    &&& EPS <= sph_res(s, ray) <= MAX_DIST
    &&& pt_ok(ray, sph_res(s, ray))
    &&& bounded(sph_norm(s, ray), 2 * ONE as int)
}

/// The hit record of a sphere intersection.
pub open spec fn sph_hit(s: Sphere, ray: Ray) -> Hit {
    Hit {
        dist: sph_res(s, ray) as i64,
        point: at_pt(ray, sph_res(s, ray)),
        norm: sph_norm(s, ray),
    }
}

/// Runtime check matching `bounded(v, 2 * ONE)`.
fn unit_in_range(v: Vec3) -> (r: bool)
    ensures
        r == bounded(v, 2 * ONE as int),
{
    let lim = 2 * ONE;
    -lim <= v.x && v.x <= lim && -lim <= v.y && v.y <= lim && -lim <= v.z && v.z <= lim
}

impl Sphere {
    /// The outward unit normal at a surface point.
    fn normal(&self, point: Vec3) -> (r: Vec3)
        requires
            wf_sphere(*self),
            bounded(point, PT_RANGE as int),
        ensures
            r.x == div_fx(point.x - self.centre.x, self.radius as int),
            r.y == div_fx(point.y - self.centre.y, self.radius as int),
            r.z == div_fx(point.z - self.centre.z, self.radius as int),
    {
        point.sub(self.centre).div_s(self.radius)
    }

    pub fn intersect(&self, ray: Ray) -> (r: Option<Hit>)
        requires
            wf_sphere(*self),
            wf_ray(ray),
        ensures
            r == if sph_hits(*self, ray) {
                Some(sph_hit(*self, ray))
            } else {
                None::<Hit>
            },
    {
        let a = dot(ray.direction, ray.direction);
        let to = ray.origin.sub(self.centre);
        let db = dot(ray.direction, to);
        proof {
            lemma_dot_bound(ray.direction, ray.direction, 0x40_0000, 0x40_0000);
            lemma_dot_bound(ray.direction, to, 0x40_0000, 0x2000_0000);
            lemma_dot_bound(to, to, 0x2000_0000, 0x2000_0000);
        }
        let b = 2 * db;
        let rr = fx_mul(self.radius, self.radius);
        proof {
            lemma_mul_fx_bound(self.radius as int, self.radius as int, 0x400_0000, 0x400_0000);
        }
        let c = dot(to, to) - rr;
        let bb = fx_mul(b, b);
        let ac = fx_mul(c, a);
        proof {
            lemma_mul_fx_bound(b as int, b as int, 0x40_0000_0000, 0x40_0000_0000);
            lemma_mul_fx_bound(c as int, a as int, 0x2000_0000_0000, 0x4000_0000);
        }
        let d2 = bb - 4 * ac;
        if d2 < EPS {
            return None;
        }
        if a == 0 {
            // Degenerate (near-zero) direction.
            return None;
        }
        let sq = fx_sqrt(d2);
        proof {
            crate::fixed::lemma_sqrt_fx_le(d2 as int, 0x80_0000_0000);
        }
        let den = 2 * a;
        let mut res = fx_div(-b - sq, den);
        if res < EPS {
            let res2 = fx_div(-b + sq, den);
            if res2 < EPS {
                return None;
            }
            res = res2;
        }
        if res > MAX_DIST {
            return None;
        }
        let point = ray.eval(res);
        proof {
            lemma_mul_fx_bound(res as int, ray.direction.x as int, 0x400_0000, 0x40_0000);
            lemma_mul_fx_bound(res as int, ray.direction.y as int, 0x400_0000, 0x40_0000);
            lemma_mul_fx_bound(res as int, ray.direction.z as int, 0x400_0000, 0x40_0000);
        }
        if !pt_in_range(point) {
            return None;
        }
        let normal = self.normal(point);
        if !unit_in_range(normal) {
            // Numerically degenerate normal: treated as a miss.
            return None;
        }
        Some(Hit { dist: res, point, norm: normal })
    }
}

// ---------------------------------------------------------------- dispatch

/// Whether a shape is hit, and with what record, by the spec rules of the
/// matching variant.
pub open spec fn shape_hits(s: Shape, ray: Ray) -> bool {
    match s {
        Shape::Triangle(t) => tri_hits(t, ray),
        Shape::Sphere(sp) => sph_hits(sp, ray),
        Shape::Plane(p) => plane_hits(p, ray),
    }
}

pub open spec fn shape_hit(s: Shape, ray: Ray) -> Hit {
    match s {
        Shape::Triangle(t) => tri_hit(t, ray),
        Shape::Sphere(sp) => sph_hit(sp, ray),
        Shape::Plane(p) => plane_hit(p, ray),
    }
}

impl Shape {
    /// The nearest intersection of the ray with this shape, if any.
    pub fn intersect(&self, ray: Ray) -> (r: Option<Hit>)
        requires
            wf_shape(*self),
            wf_ray(ray),
        ensures
            r == if shape_hits(*self, ray) {
                Some(shape_hit(*self, ray))
            } else {
                None::<Hit>
            },
    {
        match self {
            Shape::Triangle(t) => t.intersect(ray),
            Shape::Sphere(s) => s.intersect(ray),
            Shape::Plane(p) => p.intersect(ray),
        }
    }
}

/// Every accepted hit is within the finite world: distance in
/// `(0, MAX_DIST]`, point within `PT_RANGE`, normal a direction.
pub open spec fn hit_ok(h: Hit) -> bool {
    &&& 0 < h.dist <= MAX_DIST
    &&& bounded(h.point, PT_RANGE as int)
    &&& bounded(h.norm, DIR_RANGE as int)
}

/// A shape hit always satisfies `hit_ok`.
pub proof fn lemma_shape_hit_ok(s: Shape, ray: Ray)
    requires
        wf_shape(s),
        shape_hits(s, ray),
    ensures
        hit_ok(shape_hit(s, ray)),
{
}

} // verus!
