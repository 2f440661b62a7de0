//! Scalar, vector and shape behaviour on concrete values.

use pathtracer::fixed::{fx_div, fx_mul, fx_neg_ln_one_minus, fx_pow, fx_sqrt, EPS, ONE};
use pathtracer::rng::Rng;
use pathtracer::sample::{onb, random_cosine, random_hemisphere, random_vector};
use pathtracer::shape::{Plane, Shape, Sphere, Triangle};
use pathtracer::vector::{cross, dot, reflect, Ray, Vec3};

#[test]
fn fixed_point_products_round_toward_zero() {
    assert_eq!(fx_mul(ONE, ONE), ONE);
    assert_eq!(fx_mul(ONE / 2, ONE / 2), ONE / 4);
    assert_eq!(fx_mul(-ONE / 2, ONE / 2), -ONE / 4);
    assert_eq!(fx_mul(3, 3), 0);
    assert_eq!(fx_mul(-3, 3), 0);
}

#[test]
fn fixed_point_division_is_exact_on_multiples() {
    assert_eq!(fx_div(ONE, 2 * ONE), ONE / 2);
    assert_eq!(fx_div(-ONE, 2 * ONE), -ONE / 2);
    assert_eq!(fx_div(6 * ONE, 3 * ONE), 2 * ONE);
    assert_eq!(fx_div(ONE, -ONE), -ONE);
}

#[test]
fn fixed_point_square_roots() {
    assert_eq!(fx_sqrt(ONE), ONE);
    assert_eq!(fx_sqrt(4 * ONE), 2 * ONE);
    assert_eq!(fx_sqrt(25 * ONE), 5 * ONE);
    assert_eq!(fx_sqrt(0), 0);
    // 2.0 -> sqrt is 1.41421..., raw value 92681.
    assert_eq!(fx_sqrt(2 * ONE), 92681);
}

#[test]
fn fixed_point_powers() {
    assert_eq!(fx_pow(ONE, 100), ONE);
    assert_eq!(fx_pow(0, 5), 0);
    assert_eq!(fx_pow(ONE / 2, 2), ONE / 4);
    // A half to the hundredth power underflows to zero.
    assert_eq!(fx_pow(ONE / 2, 100), 0);
}

#[test]
fn free_path_transform_is_zero_at_zero() {
    assert_eq!(fx_neg_ln_one_minus(0), 0);
    // -ln(1 - 1/2) = ln 2, about 45426 raw.
    let v = fx_neg_ln_one_minus(ONE / 2);
    assert!((v - 45426).abs() < 64, "got {v}");
    for u in [1, 100, 30000, 65535] {
        assert!(fx_neg_ln_one_minus(u) >= 0);
    }
}

#[test]
fn dot_and_cross_products() {
    let x = Vec3::unit_x();
    let y = Vec3::unit_y();
    let z = Vec3::unit_z();
    assert_eq!(dot(x, y), 0);
    assert_eq!(dot(x, x), ONE);
    assert_eq!(cross(x, y), z);
    assert_eq!(cross(y, z), x);
    assert_eq!(cross(z, x), y);
    let v = Vec3::new(2 * ONE, 3 * ONE, 4 * ONE);
    assert_eq!(dot(v, v), 29 * ONE);
}

#[test]
fn normalise_is_idempotent_on_unit_vectors() {
    let u = Vec3::unit_z();
    assert_eq!(u.normalise(), u);
    let v = Vec3::new(-ONE, 0, 0);
    assert_eq!(v.normalise(), v);
}

#[test]
fn normalise_gives_unit_length_within_tolerance() {
    let v = Vec3::new(3 * ONE, 4 * ONE, 0);
    let u = v.normalise();
    assert_eq!(u, Vec3::new(39321, 52428, 0));
    let ns = u.norm_squared();
    assert!((ns - ONE).abs() < 16, "norm squared {ns}");
    let w = Vec3::new(-ONE / 2, ONE / 3, 7 * ONE).normalise();
    assert!((w.norm_squared() - ONE).abs() < 16);
}

#[test]
fn reflect_at_normal_incidence_reverses_the_ray() {
    let n = Vec3::unit_z();
    let u = n.neg();
    assert_eq!(reflect(u, n), n);
}

#[test]
fn reflect_grazing_components() {
    // A 45-degree bounce off the floor flips only the vertical part.
    let n = Vec3::unit_y();
    let u = Vec3::new(ONE, -ONE, 0);
    assert_eq!(reflect(u, n), Vec3::new(ONE, ONE, 0));
}

#[test]
fn ray_eval_walks_the_ray() {
    let ray = Ray::new(Vec3::new(ONE, 0, 0), Vec3::unit_z());
    assert_eq!(ray.eval(3 * ONE), Vec3::new(ONE, 0, 3 * ONE));
    assert_eq!(ray.eval(0), ray.origin);
}

#[test]
fn sphere_axis_hit_distance_is_d_minus_r() {
    let s = Sphere { centre: Vec3::zero(), radius: ONE };
    let ray = Ray::new(Vec3::new(0, 0, -5 * ONE), Vec3::unit_z());
    let hit = s.intersect(ray).expect("must hit");
    assert_eq!(hit.dist, 4 * ONE);
    assert_eq!(hit.point, Vec3::new(0, 0, -ONE));
    assert_eq!(hit.norm, Vec3::new(0, 0, -ONE));
}

#[test]
fn sphere_miss_and_inside_hit() {
    let s = Sphere { centre: Vec3::zero(), radius: ONE };
    let miss = Ray::new(Vec3::new(0, 3 * ONE, -5 * ONE), Vec3::unit_z());
    assert!(s.intersect(miss).is_none());
    // From the centre, the far surface is hit at distance one radius.
    let inside = Ray::new(Vec3::zero(), Vec3::unit_z());
    let hit = s.intersect(inside).expect("must hit");
    assert_eq!(hit.dist, ONE);
    assert_eq!(hit.norm, Vec3::unit_z());
}

#[test]
fn plane_straight_down_hits_at_height() {
    let p = Plane::new(Vec3::unit_y(), Vec3::zero());
    assert_eq!(p.size, 0);
    let h = 3 * ONE;
    let ray = Ray::new(Vec3::new(0, h, 0), Vec3::new(0, -ONE, 0));
    let hit = p.intersect(ray).expect("must hit");
    assert_eq!(hit.dist, h);
    assert_eq!(hit.point, Vec3::zero());
    assert_eq!(hit.norm, Vec3::unit_y());
}

#[test]
fn plane_parallel_ray_never_hits() {
    let p = Plane::new(Vec3::unit_y(), Vec3::zero());
    let ray = Ray::new(Vec3::new(0, 2 * ONE, 0), Vec3::unit_x());
    assert!(p.intersect(ray).is_none());
}

#[test]
fn plane_behind_origin_is_not_hit() {
    let p = Plane::new(Vec3::unit_y(), Vec3::zero());
    let ray = Ray::new(Vec3::new(0, 2 * ONE, 0), Vec3::new(0, ONE, 0));
    assert!(p.intersect(ray).is_none());
}

#[test]
fn triangle_hit_and_edge_reject() {
    let t = Triangle::new(
        Vec3::new(-2 * ONE, -ONE, 4 * ONE),
        Vec3::new(2 * ONE, -ONE, 4 * ONE),
        Vec3::new(0, 2 * ONE, 4 * ONE),
    );
    let ray = Ray::new(Vec3::zero(), Vec3::unit_z());
    let hit = Shape::Triangle(t).intersect(ray).expect("must hit");
    assert!((hit.dist - 4 * ONE).abs() <= EPS, "dist {}", hit.dist);
    // The stored normal follows the vertex winding.
    assert_eq!(hit.norm, Vec3::unit_z());
    // Far outside one edge: no hit.
    let wide = Ray::new(Vec3::new(5 * ONE, 0, 0), Vec3::unit_z());
    assert!(Shape::Triangle(t).intersect(wide).is_none());
}

#[test]
fn rng_is_deterministic_per_seed() {
    let mut a = Rng::new(42);
    let mut b = Rng::new(42);
    for _ in 0..32 {
        assert_eq!(a.next_u64(), b.next_u64());
    }
    let mut c = Rng::new(43);
    let mut any_diff = false;
    let mut a2 = Rng::new(42);
    for _ in 0..8 {
        if a2.next_u64() != c.next_u64() {
            any_diff = true;
        }
    }
    assert!(any_diff);
}

#[test]
fn unit_samples_are_in_the_unit_interval() {
    let mut rng = Rng::new(7);
    for _ in 0..200 {
        let u = rng.next_unit();
        assert!((0..ONE).contains(&u));
    }
}

#[test]
fn hemisphere_samples_stay_on_the_right_side() {
    let mut rng = Rng::new(11);
    let n = Vec3::unit_y();
    for _ in 0..100 {
        let v = random_hemisphere(n, &mut rng);
        assert!(dot(v, n) >= 0);
        let ns = v.norm_squared();
        assert!((ns - ONE).abs() < 256, "norm squared {ns}");
    }
}

#[test]
fn cosine_samples_point_upward() {
    let mut rng = Rng::new(13);
    for _ in 0..100 {
        let v = random_cosine(&mut rng);
        assert!(v.z >= 0);
        let ns = v.norm_squared();
        assert!((ns - ONE).abs() < 256, "norm squared {ns}");
    }
}

#[test]
fn hemisphere_vectors_are_near_unit() {
    let mut rng = Rng::new(17);
    for _ in 0..100 {
        let v = random_vector(&mut rng);
        assert!(v.z >= 0);
        assert!((v.norm_squared() - ONE).abs() < 256);
    }
}

#[test]
fn onb_is_orthogonal_within_tolerance() {
    let u = Vec3::unit_z();
    let (v, w) = onb(u);
    assert!(dot(u, v).abs() < 8);
    assert!(dot(u, w).abs() < 8);
    assert!(dot(v, w).abs() < 8);
    assert!((v.norm_squared() - ONE).abs() < 16);
    assert!((w.norm_squared() - ONE).abs() < 16);
    let u2 = Vec3::new(0, 0, -ONE);
    let (v2, w2) = onb(u2);
    assert!(dot(u2, v2).abs() < 8);
    assert!(dot(v2, w2).abs() < 8);
}
