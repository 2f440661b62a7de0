//! End-to-end integrator, material, camera and accumulation scenarios.

use pathtracer::accum::{render, Accumulator};
use pathtracer::camera::{Camera, DOFCamera, SimpleAACamera, SimpleCamera};
use pathtracer::fixed::ONE;
use pathtracer::material::{henyey_greenstein, refract, schlick, Material};
use pathtracer::object::{
    convert_objects_to_polygons, scene_intersect, GeneralObject, MediumObject, Object,
    ObjectCollection,
};
use pathtracer::rng::Rng;
use pathtracer::shape::{Shape, Sphere};
use pathtracer::trace::{background, sky_background, trace};
use pathtracer::vector::{Ray, Vec3};

fn light_sphere_scene(intensity: i64, colour: Vec3) -> Vec<Object> {
    vec![Object::General(GeneralObject {
        shape: Shape::Sphere(Sphere { centre: Vec3::new(0, 0, 5 * ONE), radius: ONE }),
        material: Material::Light(intensity),
        colour,
    })]
}

#[test]
fn trace_depth_zero_is_black_for_any_scene() {
    let scene = light_sphere_scene(ONE, Vec3::white());
    let ray = Ray::new(Vec3::zero(), Vec3::unit_z());
    let mut rng = Rng::new(1);
    assert_eq!(trace(&scene, ray, 0, &mut rng), Vec3::zero());
    let empty: Vec<Object> = vec![];
    assert_eq!(trace(&empty, ray, 0, &mut rng), Vec3::zero());
}

#[test]
fn trace_empty_scene_returns_the_background() {
    let empty: Vec<Object> = vec![];
    let mut rng = Rng::new(1);
    for dir in [Vec3::unit_x(), Vec3::unit_y(), Vec3::new(0, -ONE, 0)] {
        let ray = Ray::new(Vec3::zero(), dir);
        assert_eq!(trace(&empty, ray, 8, &mut rng), background(ray));
        assert_eq!(trace(&empty, ray, 8, &mut rng), Vec3::zero());
    }
}

#[test]
fn trace_light_hit_returns_scaled_emission() {
    // A unit light straight ahead: exactly the emitted colour, for any
    // depth of at least one, with no attenuation.
    let ray = Ray::new(Vec3::zero(), Vec3::unit_z());
    let mut rng = Rng::new(5);
    let white = light_sphere_scene(ONE, Vec3::white());
    for depth in [1usize, 2, 7] {
        assert_eq!(trace(&white, ray, depth, &mut rng), Vec3::white());
    }
    // The light's base colour modulates the emission channel-wise.
    let tinted = light_sphere_scene(2 * ONE, Vec3::new(ONE / 2, ONE / 4, 0));
    assert_eq!(trace(&tinted, ray, 3, &mut rng), Vec3::new(ONE, ONE / 2, 0));
}

#[test]
fn trace_unidirectional_light_is_one_sided() {
    let scene = vec![Object::General(GeneralObject {
        shape: Shape::Sphere(Sphere { centre: Vec3::new(0, 0, 5 * ONE), radius: ONE }),
        material: Material::LightUni(3 * ONE),
        colour: Vec3::white(),
    })];
    let mut rng = Rng::new(9);
    // From outside, the hit normal faces the ray: full emission.
    let front = Ray::new(Vec3::zero(), Vec3::unit_z());
    assert_eq!(trace(&scene, front, 4, &mut rng), Vec3::new(3 * ONE, 3 * ONE, 3 * ONE));
    // From the centre, the inner surface's normal points away: black.
    let inside = Ray::new(Vec3::new(0, 0, 5 * ONE), Vec3::unit_z());
    assert_eq!(trace(&scene, inside, 4, &mut rng), Vec3::zero());
}

#[test]
fn trace_mirror_bounces_to_the_light() {
    // Mirror ahead, light behind: one bounce lands on the light.
    let scene = vec![
        Object::General(GeneralObject {
            shape: Shape::Sphere(Sphere { centre: Vec3::new(0, 0, 5 * ONE), radius: ONE }),
            material: Material::Mirror(ONE),
            colour: Vec3::white(),
        }),
        Object::General(GeneralObject {
            shape: Shape::Sphere(Sphere { centre: Vec3::new(0, 0, -5 * ONE), radius: ONE }),
            material: Material::Light(ONE),
            colour: Vec3::white(),
        }),
    ];
    let ray = Ray::new(Vec3::zero(), Vec3::unit_z());
    let mut rng = Rng::new(21);
    assert_eq!(trace(&scene, ray, 3, &mut rng), Vec3::white());
    // With only one bounce left, the mirror's child ray is cut off at
    // depth zero and contributes black.
    assert_eq!(trace(&scene, ray, 1, &mut rng), Vec3::zero());
}

#[test]
fn trace_glass_of_index_one_is_transparent() {
    // A glass sphere with refractive index one bends nothing: the ray
    // passes straight through to the light behind it.
    let scene = vec![
        Object::General(GeneralObject {
            shape: Shape::Sphere(Sphere { centre: Vec3::new(0, 0, 5 * ONE), radius: ONE }),
            material: Material::Glass(ONE),
            colour: Vec3::white(),
        }),
        Object::General(GeneralObject {
            shape: Shape::Sphere(Sphere { centre: Vec3::new(0, 0, 10 * ONE), radius: ONE }),
            material: Material::Light(ONE),
            colour: Vec3::white(),
        }),
    ];
    let ray = Ray::new(Vec3::zero(), Vec3::unit_z());
    let mut rng = Rng::new(33);
    assert_eq!(trace(&scene, ray, 8, &mut rng), Vec3::white());
}

#[test]
fn refract_identity_at_index_one() {
    let v = Vec3::new(0, 0, ONE);
    let n = Vec3::new(0, 0, -ONE);
    assert_eq!(refract(v, n, ONE), Some(v));
    let slanted = Vec3::new(ONE / 2, 0, ONE / 2);
    // dot(slanted, n) = -1/2, on the 1/256 grid: still exact.
    assert_eq!(refract(slanted, n, ONE), Some(slanted));
}

#[test]
fn refract_reports_total_internal_reflection() {
    // Grazing exit from a dense medium: no real refraction solution.
    let v = Vec3::new(65000, 0, 8374);
    let n = Vec3::new(0, 0, -ONE);
    assert_eq!(refract(v, n, 2 * ONE), None);
}

#[test]
fn schlick_endpoints() {
    // Head-on: the reflectance is r0 = ((1-n)/(1+n))^2.
    let n15 = 3 * ONE / 2;
    assert_eq!(schlick(ONE, n15), 2621);
    // Grazing: the reflectance rises to one.
    assert_eq!(schlick(0, n15), ONE);
}

#[test]
fn henyey_greenstein_isotropic_value() {
    // With g = 0 the phase value is exactly one half for every angle.
    assert_eq!(henyey_greenstein(0, 0), ONE / 2);
    assert_eq!(henyey_greenstein(ONE, 0), ONE / 2);
    assert_eq!(henyey_greenstein(-ONE, 0), ONE / 2);
    // Forward scattering beats backward for positive g.
    let fwd = henyey_greenstein(ONE, ONE / 4);
    let bwd = henyey_greenstein(-ONE, ONE / 4);
    assert!(fwd > bwd);
}

#[test]
fn medium_always_hits_within_range() {
    let m = MediumObject { density: ONE, material: Material::Scatter(ONE / 4), colour: Vec3::white() };
    let ray = Ray::new(Vec3::zero(), Vec3::unit_z());
    let mut rng = Rng::new(3);
    for _ in 0..50 {
        let hit = m.intersect(ray, &mut rng).expect("a medium always hits");
        assert!(hit.dist >= 0);
        assert_eq!(hit.normal, ray.direction);
    }
}

#[test]
fn scene_scan_keeps_the_nearest_hit() {
    let near = Object::General(GeneralObject {
        shape: Shape::Sphere(Sphere { centre: Vec3::new(0, 0, 3 * ONE), radius: ONE }),
        material: Material::Light(ONE),
        colour: Vec3::new(ONE, 0, 0),
    });
    let far = Object::General(GeneralObject {
        shape: Shape::Sphere(Sphere { centre: Vec3::new(0, 0, 8 * ONE), radius: ONE }),
        material: Material::Light(ONE),
        colour: Vec3::new(0, ONE, 0),
    });
    let ray = Ray::new(Vec3::zero(), Vec3::unit_z());
    let mut rng = Rng::new(2);
    let scene_a = vec![near, far];
    let hit = scene_intersect(&scene_a, ray, &mut rng).expect("hit");
    assert_eq!(hit.dist, 2 * ONE);
    assert_eq!(hit.colour, Vec3::new(ONE, 0, 0));
}

#[test]
fn square_builds_two_triangles() {
    let s = ObjectCollection::square(
        Vec3::new(-ONE, ONE, 0),
        Vec3::new(ONE, ONE, 0),
        Vec3::new(ONE, -ONE, 0),
        Vec3::new(-ONE, -ONE, 0),
        Material::Lambert(ONE / 2),
        Vec3::white(),
    );
    assert_eq!(s.shapes.len(), 2);
    match (&s.shapes[0], &s.shapes[1]) {
        (Shape::Triangle(t1), Shape::Triangle(t2)) => {
            assert_eq!(t1.a, Vec3::new(-ONE, ONE, 0));
            assert_eq!(t1.b, Vec3::new(-ONE, -ONE, 0));
            assert_eq!(t1.c, Vec3::new(ONE, ONE, 0));
            assert_eq!(t2.a, Vec3::new(ONE, ONE, 0));
            assert_eq!(t2.b, Vec3::new(-ONE, -ONE, 0));
            assert_eq!(t2.c, Vec3::new(ONE, -ONE, 0));
        },
        _ => panic!("expected triangles"),
    }
}

#[test]
fn mesh_fan_triangulation_counts_and_vertices() {
    let positions = vec![
        Vec3::new(0, 0, 0),
        Vec3::new(ONE, 0, 0),
        Vec3::new(ONE, ONE, 0),
        Vec3::new(0, ONE, 0),
        Vec3::new(-ONE, ONE, ONE),
    ];
    // A quad fans into two triangles, a pentagon into three.
    let polys = vec![vec![0usize, 1, 2, 3], vec![0, 1, 2, 3, 4]];
    let tris = convert_objects_to_polygons(&positions, &polys);
    assert_eq!(tris.len(), 5);
    assert_eq!(tris[0].a, positions[0]);
    assert_eq!(tris[0].b, positions[1]);
    assert_eq!(tris[0].c, positions[2]);
    assert_eq!(tris[1].b, positions[2]);
    assert_eq!(tris[1].c, positions[3]);
    assert_eq!(tris[4].b, positions[3]);
    assert_eq!(tris[4].c, positions[4]);
    // Degenerate input: polygons of fewer than three vertices fan to
    // nothing.
    let short = vec![vec![0usize, 1]];
    assert_eq!(convert_objects_to_polygons(&positions, &short).len(), 0);
}

#[test]
fn sky_background_is_brighter_toward_the_sun() {
    let toward = Ray::new(Vec3::zero(), Vec3::new(-37837, 37837, -37837));
    let away = Ray::new(Vec3::zero(), Vec3::new(37837, -37837, 37837));
    let a = sky_background(toward);
    let b = sky_background(away);
    assert!(a.x > b.x);
    assert!(a.x >= 0 && b.x >= 0);
}

#[test]
fn pinhole_camera_center_ray_looks_forward() {
    let cam = SimpleCamera::new(
        ONE / 2,
        Vec3::zero(),
        Vec3::unit_z(),
        Vec3::unit_y(),
    );
    // The exact centre of an even-sized image maps straight ahead.
    let ray = cam.generate_ray(50, 50, 100, 100);
    assert_eq!(ray.origin, Vec3::zero());
    assert_eq!(ray.direction, Vec3::unit_z());
}

#[test]
fn camera_translate_zero_is_a_no_op() {
    let mut cam = SimpleCamera::new(ONE / 2, Vec3::new(ONE, 2 * ONE, -3 * ONE), Vec3::unit_z(), Vec3::unit_y());
    let before = cam.position;
    cam.translate(Vec3::zero());
    assert_eq!(cam.position, before);
    assert_eq!(cam.looking, Vec3::unit_z());
}

#[test]
fn camera_translate_roundtrip_restores_the_pose() {
    let mut cam = DOFCamera::new(
        ONE / 2,
        Vec3::new(ONE, 2 * ONE, -3 * ONE),
        Vec3::unit_z(),
        Vec3::unit_y(),
        3 * ONE,
        ONE / 10,
    );
    let before = (cam.position, cam.looking, cam.side, cam.up);
    let d = Vec3::new(ONE / 10, -ONE / 5, ONE / 3);
    cam.translate(d);
    assert_ne!(cam.position, before.0);
    cam.translate(d.neg());
    assert_eq!(cam.position, before.0);
    assert_eq!(cam.looking, before.1);
    assert_eq!(cam.side, before.2);
    assert_eq!(cam.up, before.3);
}

#[test]
fn aa_camera_rays_stay_near_the_pinhole_ray() {
    let aa = SimpleAACamera::new(ONE / 2, Vec3::zero(), Vec3::unit_z(), Vec3::unit_y());
    let pin = SimpleCamera::new(ONE / 2, Vec3::zero(), Vec3::unit_z(), Vec3::unit_y());
    let fixed_ray = pin.generate_ray(10, 20, 64, 64);
    let mut rng = Rng::new(77);
    for _ in 0..20 {
        let r = aa.generate_ray(10, 20, 64, 64, &mut rng);
        assert_eq!(r.origin, Vec3::zero());
        // The jitter is within one pixel, so the directions are close.
        assert!((r.direction.x - fixed_ray.direction.x).abs() < 4096);
        assert!((r.direction.y - fixed_ray.direction.y).abs() < 4096);
    }
}

#[test]
fn accumulator_averages_identical_samples_exactly() {
    // A deterministic light scene: every sample is identical, so the
    // average equals the sample with zero variance for any count.
    let scene = vec![Object::General(GeneralObject {
        shape: Shape::Sphere(Sphere { centre: Vec3::new(0, 0, 5 * ONE), radius: 2 * ONE }),
        material: Material::Light(ONE),
        colour: Vec3::white(),
    })];
    let camera = Camera::Simple(SimpleCamera::new(
        ONE / 2,
        Vec3::zero(),
        Vec3::unit_z(),
        Vec3::unit_y(),
    ));
    let mut acc = Accumulator::new(3, 3);
    let mut rng = Rng::new(4);
    for n in 1..=4u64 {
        acc.add_frame(&scene, &camera, 4, &mut rng);
        assert_eq!(acc.samples, n);
        // The centre pixel looks straight at the light.
        assert_eq!(acc.average(1, 1), Vec3::white());
    }
}

#[test]
fn accumulation_converges_for_a_stochastic_scene() {
    // A diffuse floor under a light: single samples are noisy, but the
    // running averages of two long, independent streams agree much more
    // closely than single samples do.
    let scene = vec![
        Object::General(GeneralObject {
            shape: Shape::Sphere(Sphere { centre: Vec3::new(0, 0, 5 * ONE), radius: 2 * ONE }),
            material: Material::Lambert(ONE / 2),
            colour: Vec3::white(),
        }),
        Object::General(GeneralObject {
            shape: Shape::Sphere(Sphere { centre: Vec3::new(0, 0, -6 * ONE), radius: 3 * ONE }),
            material: Material::Light(4 * ONE),
            colour: Vec3::white(),
        }),
    ];
    let ray = Ray::new(Vec3::zero(), Vec3::unit_z());
    let avg = |seed: u64, n: i64| -> i64 {
        let mut rng = Rng::new(seed);
        let mut sum: i64 = 0;
        for _ in 0..n {
            sum += trace(&scene, ray, 4, &mut rng).x;
        }
        sum / n
    };
    let single_gap = (avg(1, 1) - avg(2, 1)).abs();
    let long_gap = (avg(1, 4096) - avg(2, 4096)).abs();
    assert!(
        long_gap < single_gap || single_gap == 0,
        "long {long_gap} single {single_gap}"
    );
    // And the long averages of two seeds agree within a loose tolerance.
    assert!(long_gap < ONE / 8, "long gap {long_gap}");
}

#[test]
fn camera_move_resets_the_accumulation() {
    let scene = light_sphere_scene(ONE, Vec3::white());
    let mut camera = Camera::Simple(SimpleCamera::new(
        ONE / 2,
        Vec3::zero(),
        Vec3::unit_z(),
        Vec3::unit_y(),
    ));
    let mut acc = Accumulator::new(2, 2);
    let mut rng = Rng::new(8);
    acc.add_frame(&scene, &camera, 3, &mut rng);
    acc.add_frame(&scene, &camera, 3, &mut rng);
    assert_eq!(acc.samples, 2);
    acc.camera_moved(&mut camera, Vec3::new(ONE / 10, 0, 0));
    assert_eq!(acc.samples, 0);
    // The next frame starts a fresh average.
    acc.add_frame(&scene, &camera, 3, &mut rng);
    assert_eq!(acc.samples, 1);
}

#[test]
fn render_produces_a_full_buffer() {
    let scene = light_sphere_scene(ONE, Vec3::new(ONE / 2, ONE / 2, ONE / 2));
    let camera = Camera::Simple(SimpleCamera::new(
        ONE / 2,
        Vec3::zero(),
        Vec3::unit_z(),
        Vec3::unit_y(),
    ));
    let mut rng = Rng::new(12);
    let img = render(&scene, &camera, 5, 5, 3, 4, &mut rng);
    assert_eq!(img.len(), 25);
    // The centre pixel sees the light exactly, every sample.
    assert_eq!(img[12], Vec3::new(ONE / 2, ONE / 2, ONE / 2));
    for c in img {
        assert!(c.x >= 0 && c.y >= 0 && c.z >= 0);
    }
}

#[test]
fn trace_test_material_returns_the_base_colour() {
    let scene = vec![Object::General(GeneralObject {
        shape: Shape::Sphere(Sphere { centre: Vec3::new(0, 0, 5 * ONE), radius: ONE }),
        material: Material::Test,
        colour: Vec3::new(ONE / 4, ONE / 2, ONE),
    })];
    let ray = Ray::new(Vec3::zero(), Vec3::unit_z());
    let mut rng = Rng::new(6);
    assert_eq!(trace(&scene, ray, 2, &mut rng), Vec3::new(ONE / 4, ONE / 2, ONE));
}

#[test]
fn trace_cosine_light_full_at_normal_incidence() {
    let scene = vec![Object::General(GeneralObject {
        shape: Shape::Sphere(Sphere { centre: Vec3::new(0, 0, 5 * ONE), radius: ONE }),
        material: Material::LightCos(2 * ONE),
        colour: Vec3::white(),
    })];
    // Head-on, the falloff cosine is exactly one, so its hundredth power
    // is one and the full intensity comes back.
    let ray = Ray::new(Vec3::zero(), Vec3::unit_z());
    let mut rng = Rng::new(14);
    assert_eq!(trace(&scene, ray, 2, &mut rng), Vec3::new(2 * ONE, 2 * ONE, 2 * ONE));
    // From inside, the cosine against the inverted normal is negative:
    // the clamped base is zero and so is the emission.
    let inside = Ray::new(Vec3::new(0, 0, 5 * ONE), Vec3::unit_z());
    assert_eq!(trace(&scene, inside, 2, &mut rng), Vec3::zero());
}

#[test]
fn trace_one_sided_diffuse_backside_is_black() {
    let scene = vec![Object::General(GeneralObject {
        shape: Shape::Sphere(Sphere { centre: Vec3::new(0, 0, 5 * ONE), radius: ONE }),
        material: Material::LambertCos(ONE / 2),
        colour: Vec3::white(),
    })];
    // From the centre the incoming ray travels along the outward normal,
    // which a one-sided diffuse surface does not scatter.
    let inside = Ray::new(Vec3::new(0, 0, 5 * ONE), Vec3::unit_z());
    let mut rng = Rng::new(19);
    assert_eq!(trace(&scene, inside, 6, &mut rng), Vec3::zero());
}

#[test]
fn trace_through_a_medium_yields_radiance() {
    let scene = vec![
        Object::Medium(MediumObject {
            density: ONE / 4,
            material: Material::Scatter(ONE / 4),
            colour: Vec3::white(),
        }),
        Object::General(GeneralObject {
            shape: Shape::Sphere(Sphere { centre: Vec3::new(0, 0, 5 * ONE), radius: 2 * ONE }),
            material: Material::Light(ONE),
            colour: Vec3::white(),
        }),
    ];
    let ray = Ray::new(Vec3::zero(), Vec3::unit_z());
    let mut rng = Rng::new(23);
    for _ in 0..20 {
        let c = trace(&scene, ray, 5, &mut rng);
        assert!(c.x >= 0 && c.y >= 0 && c.z >= 0);
    }
}

#[test]
fn dof_zero_aperture_is_a_pinhole() {
    let cam = DOFCamera::new(
        ONE / 2,
        Vec3::new(ONE, -2 * ONE, 0),
        Vec3::unit_z(),
        Vec3::unit_y(),
        3 * ONE,
        0,
    );
    let mut rng = Rng::new(41);
    for i in 0..32usize {
        let r = cam.generate_ray(i % 8, i / 8, 64, 64, &mut rng);
        assert_eq!(r.origin, cam.position);
    }
}

#[test]
fn dof_origin_stays_within_the_aperture_disk() {
    let aperture = ONE / 4;
    let cam = DOFCamera::new(
        ONE / 2,
        Vec3::zero(),
        Vec3::unit_z(),
        Vec3::unit_y(),
        3 * ONE,
        aperture,
    );
    let mut rng = Rng::new(43);
    for _ in 0..64 {
        let r = cam.generate_ray(10, 10, 64, 64, &mut rng);
        assert!(r.origin.x.abs() <= 20 * aperture);
        assert!(r.origin.y.abs() <= 20 * aperture);
        assert!(r.origin.z.abs() <= 20 * aperture);
    }
}

#[test]
fn phase_function_at_the_anisotropy_limit() {
    // g = 3/4 keeps the fixed-point denominator exactly at its floor for a
    // head-on cosine: the value stays finite and exact.
    let g = 3 * ONE / 4;
    assert_eq!(henyey_greenstein(ONE, g), 14 * ONE);
    assert!(henyey_greenstein(-ONE, g) < henyey_greenstein(ONE, g));
}
