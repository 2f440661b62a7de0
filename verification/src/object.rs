//! Objects: a shape (or collection of shapes) with a material and base
//! colour, participating media, and nearest-hit resolution across a
//! heterogeneous scene.
//!
//! For scenes without media the nearest-hit scan is deterministic and its
//! result is stated exactly; a medium object draws its hit distance from
//! the random stream, so only range facts are stated for it.

use vstd::prelude::*;

verus! {

use crate::fixed::{ONE, fx_div, fx_neg_ln_one_minus, lemma_div_fx_bound};
use crate::vector::{Vec3, Colour, Ray, bounded, nonneg, DIR_RANGE};
use crate::shape::{
    Shape, Triangle, Hit, wf_shape, wf_ray, shape_hits, shape_hit, at_pt, MAX_DIST, TRI_RANGE,
    vsub, vcross,
};
use crate::material::{Material, wf_material};
use crate::rng::Rng;

/// Largest accepted base-colour channel (1024.0, far above white: colours
/// are linear HDR values).
pub const COLOUR_MAX: i64 = 0x400_0000;

/// A base colour is nonnegative and within the HDR range.
pub open spec fn wf_colour(c: Colour) -> bool {
    nonneg(c) && bounded(c, COLOUR_MAX as int)
}

/// Information about an intersection with an object.
#[derive(Clone, Copy, PartialEq, Eq, Structural, Debug)]
pub struct ObjectHit {
    pub point: Vec3,
    pub normal: Vec3,
    pub dist: i64,
    pub material: Material,
    pub colour: Colour,
}

/// Object kind holding a single primitive.
pub struct GeneralObject {
    pub shape: Shape,
    pub material: Material,
    pub colour: Colour,
}

/// A list of shapes sharing one material and colour; the nearest hit wins.
pub struct ObjectCollection {
    pub shapes: Vec<Shape>,
    pub material: Material,
    pub colour: Colour,
}

/// A participating medium with the given density; "intersection" is a
/// probabilistic free-path sample that always hits.
pub struct MediumObject {
    pub density: i64,
    pub material: Material,
    pub colour: Colour,
}

/// An intersectable object with a look (material, colour).
pub enum Object {
    General(GeneralObject),
    Collection(ObjectCollection),
    Medium(MediumObject),
}

pub open spec fn wf_general(g: GeneralObject) -> bool {
    wf_shape(g.shape) && wf_material(g.material) && wf_colour(g.colour)
}

pub open spec fn wf_collection(c: ObjectCollection) -> bool {
    &&& forall|i: int| 0 <= i < c.shapes@.len() ==> wf_shape(#[trigger] c.shapes@[i])
    &&& wf_material(c.material)
    &&& wf_colour(c.colour)
}

pub open spec fn wf_medium(m: MediumObject) -> bool {
    &&& 1 <= m.density <= COLOUR_MAX
    &&& wf_material(m.material)
    &&& wf_colour(m.colour)
}

pub open spec fn wf_object(o: Object) -> bool {
    match o {
        Object::General(g) => wf_general(g),
        Object::Collection(c) => wf_collection(c),
        Object::Medium(m) => wf_medium(m),
    }
}

/// The object resolves hits without drawing random numbers.
pub open spec fn no_medium(o: Object) -> bool {
    !(o is Medium)
}

/// Every object of the scene is well formed.
pub open spec fn wf_scene(objs: Seq<Object>) -> bool {
    forall|i: int| 0 <= i < objs.len() ==> wf_object(#[trigger] objs[i])
}

/// No object of the scene is a medium.
pub open spec fn scene_no_medium(objs: Seq<Object>) -> bool {
    forall|i: int| 0 <= i < objs.len() ==> no_medium(#[trigger] objs[i])
}

/// An object hit assembled from a shape hit and the object's look.
pub open spec fn dress(h: Hit, m: Material, c: Colour) -> ObjectHit {
    ObjectHit { point: h.point, normal: h.norm, dist: h.dist, material: m, colour: c }
}

/// The nearest hit over a list of shapes, ties broken by first encounter.
pub open spec fn coll_best(shapes: Seq<Shape>, ray: Ray) -> Option<Hit>
    decreases shapes.len(),
{
    if shapes.len() == 0 {
        None
    } else {
        let prev = coll_best(shapes.drop_last(), ray);
        if shape_hits(shapes.last(), ray) {
            let h = shape_hit(shapes.last(), ray);
            match prev {
                None => Some(h),
                Some(p) => if h.dist < p.dist {
                    Some(h)
                } else {
                    Some(p)
                },
            }
        } else {
            prev
        }
    }
}

/// The deterministic hit of a medium-free object.
pub open spec fn object_hit_det(o: Object, ray: Ray) -> Option<ObjectHit> {
    match o {
        Object::General(g) => if shape_hits(g.shape, ray) {
            Some(dress(shape_hit(g.shape, ray), g.material, g.colour))
        } else {
            None
        },
        Object::Collection(c) => match coll_best(c.shapes@, ray) {
            Some(h) => Some(dress(h, c.material, c.colour)),
            None => None,
        },
        Object::Medium(m) => None,
    }
}

/// The nearest deterministic hit over a medium-free scene, ties broken by
/// first encounter.
pub open spec fn scene_hit_det(objs: Seq<Object>, ray: Ray) -> Option<ObjectHit>
    decreases objs.len(),
{
    if objs.len() == 0 {
        None
    } else {
        let prev = scene_hit_det(objs.drop_last(), ray);
        match object_hit_det(objs.last(), ray) {
            None => prev,
            Some(h) => match prev {
                None => Some(h),
                Some(p) => if h.dist < p.dist {
                    Some(h)
                } else {
                    Some(p)
                },
            },
        }
    }
}

/// What every returned object hit satisfies: distance and normal within
/// the finite world, look taken from a scene object.
pub open spec fn ohit_ok(h: ObjectHit) -> bool {
    &&& 0 <= h.dist <= MAX_DIST
    &&& bounded(h.normal, DIR_RANGE as int)
    &&& bounded(h.point, 0x4_0000_0000)
    &&& wf_material(h.material)
    &&& wf_colour(h.colour)
}

/// A deterministic object hit is within the finite world.
pub proof fn lemma_object_hit_det_ok(o: Object, ray: Ray)
    requires
        wf_object(o),
        wf_ray(ray),
        object_hit_det(o, ray) is Some,
    ensures
        ohit_ok(object_hit_det(o, ray)->Some_0),
{
    match o {
        Object::General(g) => {
            crate::shape::lemma_shape_hit_ok(g.shape, ray);
        },
        Object::Collection(c) => {
            lemma_coll_best_ok(c.shapes@, ray);
        },
        Object::Medium(m) => {},
    }
}

/// The best hit of a collection is one of its shapes' hits.
pub proof fn lemma_coll_best_ok(shapes: Seq<Shape>, ray: Ray)
    requires
        forall|i: int| 0 <= i < shapes.len() ==> wf_shape(#[trigger] shapes[i]),
        wf_ray(ray),
        coll_best(shapes, ray) is Some,
    ensures
        crate::shape::hit_ok(coll_best(shapes, ray)->Some_0),
    decreases shapes.len(),
{
    if shapes.len() == 0 {
    } else {
        if coll_best(shapes.drop_last(), ray) is Some {
            lemma_coll_best_ok(shapes.drop_last(), ray);
        }
        if shape_hits(shapes.last(), ray) {
            crate::shape::lemma_shape_hit_ok(shapes.last(), ray);
        }
    }
}

/// A deterministic scene hit is within the finite world.
pub proof fn lemma_scene_hit_det_ok(objs: Seq<Object>, ray: Ray)
    requires
        wf_scene(objs),
        wf_ray(ray),
        scene_hit_det(objs, ray) is Some,
    ensures
        ohit_ok(scene_hit_det(objs, ray)->Some_0),
    decreases objs.len(),
{
    if objs.len() == 0 {
    } else {
        if scene_hit_det(objs.drop_last(), ray) is Some {
            lemma_scene_hit_det_ok(objs.drop_last(), ray);
        }
        if object_hit_det(objs.last(), ray) is Some {
            lemma_object_hit_det_ok(objs.last(), ray);
        }
    }
}

impl GeneralObject {
    pub fn intersect(&self, ray: Ray) -> (r: Option<ObjectHit>)
        requires
            wf_general(*self),
            wf_ray(ray),
        ensures
            r == object_hit_det(Object::General(*self), ray),
    {
        match self.shape.intersect(ray) {
            Some(vals) => Some(
                ObjectHit {
                    point: vals.point,
                    normal: vals.norm,
                    dist: vals.dist,
                    material: self.material,
                    colour: self.colour,
                },
            ),
            None => None,
        }
    }
}

impl ObjectCollection {
    /// A square from four corner points in winding order, as two triangles;
    /// the corners must make both triangles non-degenerate.
    pub fn square(a: Vec3, b: Vec3, c: Vec3, d: Vec3, material: Material, colour: Colour) -> (r:
        ObjectCollection)
        requires
            bounded(a, TRI_RANGE as int),
            bounded(b, TRI_RANGE as int),
            bounded(c, TRI_RANGE as int),
            bounded(d, TRI_RANGE as int),
            crate::vector::dot3(vcross(vsub(d, a), vsub(b, a)), vcross(vsub(d, a), vsub(b, a)))
                >= crate::vector::NSQ_MIN as int,
            crate::vector::dot3(vcross(vsub(d, b), vsub(c, b)), vcross(vsub(d, b), vsub(c, b)))
                >= crate::vector::NSQ_MIN as int,
        ensures
            r.material == material,
            r.colour == colour,
            r.shapes@.len() == 2,
            r.shapes@[0] == Shape::Triangle(Triangle::new_spec(a, d, b)),
            r.shapes@[1] == Shape::Triangle(Triangle::new_spec(b, d, c)),
    {
        let t1 = Triangle::new(a, d, b);
        let t2 = Triangle::new(b, d, c);
        let mut shapes: Vec<Shape> = Vec::new();
        shapes.push(Shape::Triangle(t1));
        shapes.push(Shape::Triangle(t2));
        ObjectCollection { shapes, material, colour }
    }

    pub fn intersect(&self, ray: Ray) -> (r: Option<ObjectHit>)
        requires
            wf_collection(*self),
            wf_ray(ray),
        ensures
            r == match coll_best(self.shapes@, ray) {
                Some(h) => Some(dress(h, self.material, self.colour)),
                None => None::<ObjectHit>,
            },
    {
        let mut hit: Option<Hit> = None;
        let n = self.shapes.len();
        let mut i: usize = 0;
        while i < n
            invariant
                0 <= i <= n,
                n == self.shapes@.len(),
                forall|j: int| 0 <= j < self.shapes@.len() ==> wf_shape(#[trigger] self.shapes@[j]),
                wf_ray(ray),
                hit == coll_best(self.shapes@.take(i as int), ray),
            decreases n - i,
        {
            proof {
                assert(self.shapes@.take(i + 1int).drop_last() =~= self.shapes@.take(i as int));
                assert(self.shapes@.take(i + 1int).last() == self.shapes@[i as int]);
            }
            let candidate = self.shapes[i].intersect(ray);
            match candidate {
                Some(candidate_hit) => {
                    match hit {
                        None => {
                            hit = Some(candidate_hit);
                        },
                        Some(prev) => {
                            if candidate_hit.dist < prev.dist {
                                hit = Some(candidate_hit);
                            }
                        },
                    }
                },
                None => {},
            }
            i = i + 1;
        }
        proof {
            assert(self.shapes@.take(n as int) =~= self.shapes@);
        }
        match hit {
            Some(vals) => Some(
                ObjectHit {
                    point: vals.point,
                    normal: vals.norm,
                    dist: vals.dist,
                    material: self.material,
                    colour: self.colour,
                },
            ),
            None => None,
        }
    }
}

/// The triangle on vertices `a`, `b`, `c` is non-degenerate: its edge
/// cross product is long enough to normalise.
pub open spec fn tri_nondegen(a: Vec3, b: Vec3, c: Vec3) -> bool {
    crate::vector::dot3(vcross(vsub(b, a), vsub(c, a)), vcross(vsub(b, a), vsub(c, a)))
        >= crate::vector::NSQ_MIN as int
}

/// The fan triangulation of one polygon: triangles (v0, vj, vj+1).
pub open spec fn fan_tris(positions: Seq<Vec3>, poly: Seq<usize>) -> Seq<Triangle>
    decreases poly.len(),
{
    if poly.len() < 3 {
        Seq::empty()
    } else {
        fan_tris(positions, poly.drop_last()).push(
            Triangle::new_spec(
                positions[poly[0] as int],
                positions[poly[poly.len() - 2] as int],
                positions[poly[poly.len() - 1] as int],
            ),
        )
    }
}

/// The concatenated fan triangulations of a polygon list.
pub open spec fn fan_all(positions: Seq<Vec3>, polys: Seq<Vec<usize>>) -> Seq<Triangle>
    decreases polys.len(),
{
    if polys.len() == 0 {
        Seq::empty()
    } else {
        fan_all(positions, polys.drop_last()) + fan_tris(positions, polys.last()@)
    }
}

/// Converts an indexed polygon mesh into a flat list of triangles by fan
/// triangulation: each polygon (v0, v1, ..., vk) becomes the triangles
/// (v0, vj, vj+1) for j in 1..k.  The mesh loader hands in plain vertex
/// positions and index lists.
pub fn convert_objects_to_polygons(positions: &Vec<Vec3>, polys: &Vec<Vec<usize>>) -> (r: Vec<
    Triangle,
>)
    requires
        forall|p: int|
            0 <= p < positions@.len() ==> bounded(#[trigger] positions@[p], TRI_RANGE as int),
        forall|i: int, j: int|
            0 <= i < polys@.len() && 0 <= j < polys@[i]@.len() ==> #[trigger] polys@[i]@[j]
                < positions@.len(),
        forall|i: int, j: int|
            0 <= i < polys@.len() && 1 <= j < polys@[i]@.len() - 1 ==> #[trigger] tri_nondegen(
                positions@[polys@[i]@[0] as int],
                positions@[polys@[i]@[j] as int],
                positions@[polys@[i]@[j + 1] as int],
            ),
    ensures
        r@ == fan_all(positions@, polys@),
{
    let mut polygons: Vec<Triangle> = Vec::new();
    let np = polys.len();
    let mut i: usize = 0;
    while i < np
        invariant
            0 <= i <= np,
            np == polys@.len(),
            polygons@ == fan_all(positions@, polys@.take(i as int)),
            forall|p: int|
                0 <= p < positions@.len() ==> bounded(#[trigger] positions@[p], TRI_RANGE as int),
            forall|a: int, j: int|
                0 <= a < polys@.len() && 0 <= j < polys@[a]@.len() ==> #[trigger] polys@[a]@[j]
                    < positions@.len(),
            forall|a: int, j: int|
                0 <= a < polys@.len() && 1 <= j < polys@[a]@.len() - 1 ==> #[trigger] tri_nondegen(
                    positions@[polys@[a]@[0] as int],
                    positions@[polys@[a]@[j] as int],
                    positions@[polys@[a]@[j + 1] as int],
                ),
        decreases np - i,
    {
        let poly = &polys[i];
        let len = poly.len();
        if len >= 3 {
            let i0 = poly[0];
            let v0 = positions[i0];
            let mut j: usize = 1;
            while j + 1 < len
                invariant
                    1 <= j,
                    j + 1 <= len,
                    poly@ == polys@[i as int]@,
                    len == polys@[i as int]@.len(),
                    0 <= i < polys@.len(),
                    np == polys@.len(),
                    len >= 3,
                    i0 == polys@[i as int]@[0],
                    i0 < positions@.len(),
                    v0 == positions@[i0 as int],
                    polygons@ == fan_all(positions@, polys@.take(i as int)) + fan_tris(
                        positions@,
                        polys@[i as int]@.take(j + 1),
                    ),
                    forall|p: int|
                        0 <= p < positions@.len() ==> bounded(
                            #[trigger] positions@[p],
                            TRI_RANGE as int,
                        ),
                    forall|a: int, jj: int|
                        0 <= a < polys@.len() && 0 <= jj < polys@[a]@.len() ==> #[trigger] polys@[a]@[jj]
                            < positions@.len(),
                    forall|a: int, jj: int|
                        0 <= a < polys@.len() && 1 <= jj < polys@[a]@.len() - 1
                            ==> #[trigger] tri_nondegen(
                            positions@[polys@[a]@[0] as int],
                            positions@[polys@[a]@[jj] as int],
                            positions@[polys@[a]@[jj + 1] as int],
                        ),
                decreases len - j,
            {
                let ia = poly[j];
                let ib = poly[j + 1];
                let va = positions[ia];
                let vb = positions[ib];
                proof {
                    let pseq = polys@[i as int]@;
                    assert(tri_nondegen(
                        positions@[pseq[0] as int],
                        positions@[pseq[j as int] as int],
                        positions@[pseq[j + 1] as int],
                    ));
                    assert(tri_nondegen(v0, va, vb));
                }
                let tri = Triangle::new(v0, va, vb);
                polygons.push(tri);
                proof {
                    let pseq = polys@[i as int]@;
                    assert(pseq.take(j + 2).drop_last() =~= pseq.take(j + 1));
                    assert(pseq.take(j + 2).len() == j + 2);
                    assert(pseq.take(j + 2)[0] == pseq[0]);
                    assert(pseq.take(j + 2)[j as int] == pseq[j as int]);
                    assert(pseq.take(j + 2)[j + 1] == pseq[j + 1]);
                    assert(fan_tris(positions@, pseq.take(j + 2)) == fan_tris(
                        positions@,
                        pseq.take(j + 1),
                    ).push(tri));
                }
                j = j + 1;
            }
            proof {
                let pseq = polys@[i as int]@;
                assert(pseq.take(j + 1) =~= pseq);
                assert(polys@.take(i + 1).drop_last() =~= polys@.take(i as int));
                assert(polys@.take(i + 1).last() == polys@[i as int]);
            }
        } else {
            proof {
                assert(fan_tris(positions@, polys@[i as int]@) =~= Seq::<Triangle>::empty());
                assert(polys@.take(i + 1).drop_last() =~= polys@.take(i as int));
                assert(polys@.take(i + 1).last() == polys@[i as int]);
                assert(polygons@ =~= fan_all(positions@, polys@.take(i as int)) + fan_tris(
                    positions@,
                    polys@[i as int]@,
                ));
            }
        }
        i = i + 1;
    }
    proof {
        assert(polys@.take(np as int) =~= polys@);
    }
    polygons
}

impl MediumObject {
    /// A free-path "intersection": always hits, at a distance drawn from an
    /// exponential distribution with this medium's density, capped at the
    /// far bound; the hit normal is the ray direction by convention.
    pub fn intersect(&self, ray: Ray, rng: &mut Rng) -> (r: Option<ObjectHit>)
        requires
            wf_medium(*self),
            wf_ray(ray),
        ensures
            r is Some,
            0 <= r->Some_0.dist <= MAX_DIST,
            r->Some_0.normal == ray.direction,
            r->Some_0.material == self.material,
            r->Some_0.colour == self.colour,
            r->Some_0.point == at_pt(ray, r->Some_0.dist as int),
            bounded(r->Some_0.point, 0x4_0000_0000),
    {
        let u = rng.next_unit();
        let nl = fx_neg_ln_one_minus(u);
        let dist0 = fx_div(nl, self.density);
        proof {
            lemma_div_fx_bound(nl as int, self.density as int, 1);
            vstd::arithmetic::div_mod::lemma_div_pos_is_pos(
                (nl as int) * (ONE as int),
                self.density as int,
            );
            assert((nl as int) * (ONE as int) >= 0) by (nonlinear_arith)
                requires nl >= 0;
        }
        let dist = if dist0 > MAX_DIST {
            MAX_DIST
        } else {
            dist0
        };
        let point = ray.eval(dist);
        proof {
            crate::fixed::lemma_mul_fx_bound(
                dist as int,
                ray.direction.x as int,
                0x400_0000,
                0x40_0000,
            );
            crate::fixed::lemma_mul_fx_bound(
                dist as int,
                ray.direction.y as int,
                0x400_0000,
                0x40_0000,
            );
            crate::fixed::lemma_mul_fx_bound(
                dist as int,
                ray.direction.z as int,
                0x400_0000,
                0x40_0000,
            );
        }
        Some(
            ObjectHit {
                point,
                normal: ray.direction,
                dist,
                material: self.material,
                colour: self.colour,
            },
        )
    }
}

impl Object {
    /// The object's intersection with the ray.  Deterministic objects
    /// resolve exactly per `object_hit_det`; a medium always hits, at a
    /// random free-path distance.
    pub fn intersect(&self, ray: Ray, rng: &mut Rng) -> (r: Option<ObjectHit>)
        requires
            wf_object(*self),
            wf_ray(ray),
        ensures
            no_medium(*self) ==> r == object_hit_det(*self, ray),
            self is Medium ==> r is Some,
            r is Some ==> ohit_ok(r->Some_0),
    {
        proof {
            if no_medium(*self) && object_hit_det(*self, ray) is Some {
                lemma_object_hit_det_ok(*self, ray);
            }
        }
        match self {
            Object::General(g) => g.intersect(ray),
            Object::Collection(c) => c.intersect(ray),
            Object::Medium(m) => m.intersect(ray, rng),
        }
    }
}

/// The scene's intersection with the ray: scan all objects, keep the hit of
/// least distance, ties broken by first encounter.  For medium-free scenes
/// this is exactly `scene_hit_det`.
pub fn scene_intersect(objects: &Vec<Object>, ray: Ray, rng: &mut Rng) -> (r: Option<ObjectHit>)
    requires
        wf_scene(objects@),
        wf_ray(ray),
    ensures
        scene_no_medium(objects@) ==> r == scene_hit_det(objects@, ray),
        r is Some ==> ohit_ok(r->Some_0),
        (exists|i: int| 0 <= i < objects@.len() && (#[trigger] objects@[i]) is Medium) ==> r
            is Some,
{
    let mut object_hit: Option<ObjectHit> = None;
    let n = objects.len();
    let mut i: usize = 0;
    while i < n
        invariant
            0 <= i <= n,
            n == objects@.len(),
            wf_scene(objects@),
            wf_ray(ray),
            scene_no_medium(objects@) ==> object_hit == scene_hit_det(
                objects@.take(i as int),
                ray,
            ),
            object_hit is Some ==> ohit_ok(object_hit->Some_0),
            (exists|j: int| 0 <= j < i && (#[trigger] objects@[j]) is Medium) ==> object_hit
                is Some,
        decreases n - i,
    {
        proof {
            assert(objects@.take(i + 1int).drop_last() =~= objects@.take(i as int));
            assert(objects@.take(i + 1int).last() == objects@[i as int]);
        }
        let candidate = objects[i].intersect(ray, rng);
        match candidate {
            Some(candidate_hit) => {
                match object_hit {
                    None => {
                        object_hit = Some(candidate_hit);
                    },
                    Some(previous) => {
                        if candidate_hit.dist < previous.dist {
                            object_hit = Some(candidate_hit);
                        }
                    },
                }
            },
            None => {},
        }
        i = i + 1;
    }
    proof {
        assert(objects@.take(n as int) =~= objects@);
    }
    object_hit
}

} // verus!
