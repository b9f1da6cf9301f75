//! Scene-level checks: intersection geometry, scattering, the recursive
//! estimator and full deterministic renders.

use raytrace::camera::Camera;
use raytrace::camera::Settings;
use raytrace::fx::SCALE;
use raytrace::hittable::Hittable;
use raytrace::hittable_list::HittableList;
use raytrace::interval::Interval;
use raytrace::interval::T_LIM;
use raytrace::material::Material;
use raytrace::ray::Ray;
use raytrace::sampler::Sampler;
use raytrace::sphere::Sphere;
use raytrace::vec3::Vec3;

fn grey() -> Material {
    Material::lambertian(Vec3::new(32768, 32768, 32768))
}

#[test]
fn sphere_hit_straight_at_center() {
    // A unit ray aimed at a sphere two units away with radius one half:
    // the hit parameter is the center distance less the radius, and the
    // normal is the reversed ray direction.
    let s = Sphere::new(Vec3::new(0, 0, -2 * SCALE), SCALE / 2, grey());
    let ray = Ray::new(Vec3::zero(), Vec3::new(0, 0, -SCALE));
    let rec = s.hit(&ray, &Interval::new(66, T_LIM)).expect("must hit");
    assert_eq!(rec.t, 98304);
    assert!(rec.front_face);
    assert_eq!((rec.normal.x(), rec.normal.y(), rec.normal.z()), (0, 0, SCALE));
    assert_eq!((rec.p.x(), rec.p.y(), rec.p.z()), (0, 0, -98304));
}

#[test]
fn sphere_miss_returns_none() {
    let s = Sphere::new(Vec3::new(0, 10 * SCALE, -2 * SCALE), SCALE / 2, grey());
    let ray = Ray::new(Vec3::zero(), Vec3::new(0, 0, -SCALE));
    assert!(s.hit(&ray, &Interval::new(66, T_LIM)).is_none());
}

#[test]
fn hit_normal_always_faces_the_ray() {
    // From outside and from inside the sphere, the oriented normal opposes
    // the ray direction.
    let s = Sphere::new(Vec3::new(0, 0, -2 * SCALE), SCALE / 2, grey());
    let outside = Ray::new(Vec3::zero(), Vec3::new(0, 0, -SCALE));
    let rec = s.hit(&outside, &Interval::new(66, T_LIM)).expect("must hit");
    assert!(Vec3::dot(&rec.normal, outside.direction()) <= 0);
    let inside = Ray::new(Vec3::new(0, 0, -2 * SCALE), Vec3::new(0, 0, -SCALE));
    let rec2 = s.hit(&inside, &Interval::new(66, T_LIM)).expect("must hit");
    assert!(!rec2.front_face);
    assert!(Vec3::dot(&rec2.normal, inside.direction()) <= 0);
}

#[test]
fn nearest_hit_wins_in_either_order() {
    // Two overlapping spheres along one ray: the scene reports the nearer
    // hit whichever was added first.
    let near = Sphere::new(Vec3::new(0, 0, -2 * SCALE), SCALE / 2, grey());
    let far = Sphere::new(
        Vec3::new(0, 0, -3 * SCALE),
        SCALE,
        Material::dielectric(98304),
    );
    let ray = Ray::new(Vec3::zero(), Vec3::new(0, 0, -SCALE));
    let window = Interval::new(66, T_LIM);

    let mut world = HittableList::default();
    world.add(near);
    world.add(far);
    let rec = world.hit(&ray, &window).expect("must hit");
    assert_eq!(rec.t, 98304);
    assert!(matches!(rec.mat, Material::Lambertian { .. }));

    let mut world2 = HittableList::default();
    world2.add(far);
    world2.add(near);
    let rec2 = world2.hit(&ray, &window).expect("must hit");
    assert_eq!(rec2.t, 98304);
    assert!(matches!(rec2.mat, Material::Lambertian { .. }));
}

#[test]
fn metal_rejects_grazing_scatter() {
    // A grazing reflection stays in the surface plane, so the scattered
    // direction does not leave the surface and the path is absorbed.
    let albedo = Vec3::new(32768, 32768, 32768);
    let metal = Material::metal(albedo, 0);
    let ray = Ray::new(Vec3::zero(), Vec3::new(SCALE, 0, 0));
    let rec = raytrace::hittable::HitRecord::new(
        6600,
        Vec3::zero(),
        &ray,
        Vec3::new(0, SCALE, 0),
        metal,
    );
    for seed in [1u64, 2, 3, 1000] {
        let mut sampler = Sampler::Seeded(seed);
        assert!(metal.scatter(&ray, &rec, &mut sampler).is_none());
    }
}

#[test]
fn metal_scatter_leaves_the_surface() {
    // A square reflection off a mirror is the mirrored direction and is
    // never below the surface.
    let albedo = Vec3::new(58982, 52428, 45875);
    let metal = Material::metal(albedo, 0);
    let ray = Ray::new(Vec3::new(0, SCALE, 0), Vec3::new(SCALE, -SCALE, 0));
    let rec = raytrace::hittable::HitRecord::new(
        SCALE,
        Vec3::new(SCALE, 0, 0),
        &ray,
        Vec3::new(0, SCALE, 0),
        metal,
    );
    let mut sampler = Sampler::Seeded(5);
    let sr = metal.scatter(&ray, &rec, &mut sampler).expect("must scatter");
    assert!(Vec3::dot(sr.scattered.direction(), &rec.normal) > 0);
    assert_eq!(
        (sr.attenuation.x(), sr.attenuation.y(), sr.attenuation.z()),
        (58982, 52428, 45875)
    );
    assert_eq!((sr.scattered.origin().x(), sr.scattered.origin().y()), (SCALE, 0));
}

#[test]
fn dielectric_total_internal_reflection() {
    // Leaving glass at a shallow angle: ratio * sin exceeds one, so the
    // result is the mirror reflection for every random draw.
    let glass = Material::dielectric(98304);
    let ray = Ray::new(Vec3::zero(), Vec3::new(SCALE, SCALE / 2, 0));
    let rec = raytrace::hittable::HitRecord::new(
        SCALE,
        Vec3::new(SCALE, SCALE / 2, 0),
        &ray,
        Vec3::new(0, SCALE, 0),
        glass,
    );
    assert!(!rec.front_face);
    let ud = ray.direction().unit();
    let mirrored = Vec3::reflect(&ud, &rec.normal);
    for seed in [0u64, 1, 2, 3, 17, 999] {
        let mut sampler = Sampler::Seeded(seed);
        let sr = glass.scatter(&ray, &rec, &mut sampler).expect("always scatters");
        assert_eq!(
            (
                sr.scattered.direction().x(),
                sr.scattered.direction().y(),
                sr.scattered.direction().z()
            ),
            (mirrored.x(), mirrored.y(), mirrored.z())
        );
        assert_eq!(
            (sr.attenuation.x(), sr.attenuation.y(), sr.attenuation.z()),
            (SCALE, SCALE, SCALE)
        );
    }
}

#[test]
fn lambertian_always_scatters_with_albedo() {
    let albedo = Vec3::new(26214, 39321, 13107);
    let mat = Material::lambertian(albedo);
    let ray = Ray::new(Vec3::zero(), Vec3::new(0, 0, -SCALE));
    let rec = raytrace::hittable::HitRecord::new(
        SCALE,
        Vec3::new(0, 0, -SCALE),
        &ray,
        Vec3::new(0, 0, SCALE),
        mat,
    );
    let mut sampler = Sampler::Seeded(11);
    for _ in 0..16 {
        let sr = mat.scatter(&ray, &rec, &mut sampler).expect("always scatters");
        assert_eq!(
            (sr.attenuation.x(), sr.attenuation.y(), sr.attenuation.z()),
            (26214, 39321, 13107)
        );
        assert_eq!(
            (
                sr.scattered.origin().x(),
                sr.scattered.origin().y(),
                sr.scattered.origin().z()
            ),
            (0, 0, -SCALE)
        );
        assert!(sr.scattered.direction().len_squared() >= 1);
    }
}

#[test]
fn ray_color_at_depth_zero_is_black() {
    let mut world = HittableList::default();
    world.add(Sphere::new(Vec3::new(0, 0, -2 * SCALE), SCALE / 2, grey()));
    let ray = Ray::new(Vec3::zero(), Vec3::new(0, 0, -SCALE));
    let mut sampler = Sampler::Seeded(1);
    let c = Camera::ray_color(&ray, 0, &world, &mut sampler);
    assert_eq!((c.x(), c.y(), c.z()), (0, 0, 0));
}

#[test]
fn background_gradient_extremes() {
    // Straight up lands on the sky tint, straight down on pure white.
    let world = HittableList::default();
    let mut sampler = Sampler::Seeded(1);
    let up = Ray::new(Vec3::zero(), Vec3::new(0, SCALE, 0));
    let c = Camera::ray_color(&up, 5, &world, &mut sampler);
    assert_eq!((c.x(), c.y(), c.z()), (32768, 45875, SCALE));
    // A longer vertical direction normalizes to the same unit direction.
    let up5 = Ray::new(Vec3::zero(), Vec3::new(0, 5 * SCALE, 0));
    let c5 = Camera::ray_color(&up5, 5, &world, &mut sampler);
    assert_eq!((c5.x(), c5.y(), c5.z()), (32768, 45875, SCALE));
    let down = Ray::new(Vec3::zero(), Vec3::new(0, -SCALE, 0));
    let cd = Camera::ray_color(&down, 5, &world, &mut sampler);
    assert_eq!((cd.x(), cd.y(), cd.z()), (SCALE, SCALE, SCALE));
}

#[test]
fn camera_height_follows_aspect_ratio() {
    let mut settings = Settings::default();
    assert!(settings.check());
    let cam = Camera::new(settings);
    assert_eq!(cam.image_height, 225);
    assert_eq!(cam.image_width, 400);

    settings = Settings::default();
    settings.image_width = 1;
    settings.aspect_ratio = 524288;
    assert!(settings.check());
    let tiny = Camera::new(settings);
    assert_eq!(tiny.image_height, 1);
}

fn golden_scene() -> (Settings, HittableList) {
    let mut settings = Settings::default();
    settings.image_width = 400;
    settings.samples_per_pixel = 1;
    settings.max_depth = 10;
    settings.lookfrom = Vec3::zero();
    settings.lookat = Vec3::new(0, 0, -SCALE);
    settings.vup = Vec3::new(0, SCALE, 0);
    settings.defocus_half_tan = 0;
    settings.vfov_half_tan = 60293;  // a 85-degree vertical field of view
    settings.focus_dist = SCALE;
    let mut world = HittableList::default();
    let ground = Material::metal(Vec3::new(52428, 52428, 0), 0);
    let center = Material::metal(Vec3::new(45875, 45875, 45875), 0);
    world.add(Sphere::new(Vec3::new(0, -6586368, -SCALE), 100 * SCALE, ground));
    world.add(Sphere::new(Vec3::new(0, 0, -SCALE), SCALE / 2, center));
    (settings, world)
}

#[test]
fn golden_render_is_reproducible() {
    // Two spheres, a 16:9 camera 400 pixels wide, one sample per pixel and
    // a seeded sampler: the whole byte stream is fixed.
    let (settings, world) = golden_scene();
    assert!(settings.check());
    let cam = Camera::new(settings);
    let mut s1 = Sampler::Seeded(7);
    let ppm1 = cam.render(&world, &mut s1);
    let mut s2 = Sampler::Seeded(7);
    let ppm2 = cam.render(&world, &mut s2);
    assert_eq!(ppm1, ppm2);
    assert!(ppm1.starts_with(b"P3\n400 225\n255\n"));
    let newlines = ppm1.iter().filter(|b| **b == b'\n').count();
    assert_eq!(newlines, 3 + 400 * 225);
    // Golden pixel values: the top-left sky pixel, one mid-image pixel on
    // the mirrored sphere, and the bottom-right ground pixel.
    let text = String::from_utf8(ppm1).unwrap();
    let lines: Vec<&str> = text.lines().collect();
    assert_eq!(lines[3], "205 226 255");
    assert_eq!(lines[3 + 112 * 400 + 200], "185 197 214");
    assert_eq!(lines[3 + 225 * 400 - 1], "183 203 0");
}

