//! Component-level checks of the fixed-point vector algebra, intervals,
//! color encoding and sampling.

use raytrace::color::channel_byte;
use raytrace::fx::div_fx;
use raytrace::fx::mul_fx;
use raytrace::fx::sqrt_fx;
use raytrace::fx::SCALE;
use raytrace::interval::Interval;
use raytrace::material::Material;
use raytrace::sampler::Sampler;
use raytrace::vec3::Vec3;

#[test]
fn fixed_point_products_and_roots() {
    // 1.5 * 1.5 = 2.25
    assert_eq!(mul_fx(98304, 98304), 147456);
    // (-1.5) * 1.5 = -2.25, truncation toward zero
    assert_eq!(mul_fx(-98304, 98304), -147456);
    // 3.0 / 2.0 = 1.5
    assert_eq!(div_fx(3 * SCALE, 2 * SCALE), 98304);
    // sqrt(4.0) = 2.0
    assert_eq!(sqrt_fx(4 * SCALE), 2 * SCALE);
    // sqrt(0) = 0, sqrt(1) = 1
    assert_eq!(sqrt_fx(0), 0);
    assert_eq!(sqrt_fx(SCALE), SCALE);
}

#[test]
fn vector_arithmetic() {
    let a = Vec3::new(SCALE, 2 * SCALE, -SCALE);
    let b = Vec3::new(3 * SCALE, -SCALE, 2 * SCALE);
    let s = a.add(&b);
    assert_eq!((s.x(), s.y(), s.z()), (4 * SCALE, SCALE, SCALE));
    let d = a.sub(&b);
    assert_eq!((d.x(), d.y(), d.z()), (-2 * SCALE, 3 * SCALE, -3 * SCALE));
    // dot: 1*3 + 2*(-1) + (-1)*2 = -1
    assert_eq!(Vec3::dot(&a, &b), -SCALE);
    // cross of the axes: x cross y = z
    let x = Vec3::new(SCALE, 0, 0);
    let y = Vec3::new(0, SCALE, 0);
    let c = Vec3::cross(&x, &y);
    assert_eq!((c.x(), c.y(), c.z()), (0, 0, SCALE));
    // |(0, 3, 0)| = 3 and its unit vector is the axis
    let v = Vec3::new(0, 3 * SCALE, 0);
    assert_eq!(v.len_squared(), 9 * SCALE);
    assert_eq!(v.len(), 3 * SCALE);
    let u = v.unit();
    assert_eq!((u.x(), u.y(), u.z()), (0, SCALE, 0));
}

#[test]
fn vector_index_and_accessors() {
    let v = Vec3::new(7, 8, 9);
    assert_eq!(v.at(0), 7);
    assert_eq!(v.at(1), 8);
    assert_eq!(v.at(2), 9);
    assert_eq!(Vec3::zero().len_squared(), 0);
}

#[test]
fn near_zero_threshold() {
    assert!(Vec3::new(255, -255, 0).near_zero());
    assert!(!Vec3::new(256, 0, 0).near_zero());
    assert!(!Vec3::new(0, 0, -256).near_zero());
}

#[test]
fn reflection_is_mirrored() {
    // Reflect a down-right vector off the ground plane: y flips.
    let v = Vec3::new(SCALE, -SCALE, 0);
    let n = Vec3::new(0, SCALE, 0);
    let r = Vec3::reflect(&v, &n);
    assert_eq!((r.x(), r.y(), r.z()), (SCALE, SCALE, 0));
}

#[test]
fn refraction_bends_toward_surface() {
    // Head-on refraction keeps the direction regardless of the ratio.
    let uv = Vec3::new(0, -SCALE, 0);
    let n = Vec3::new(0, SCALE, 0);
    let r = Vec3::refract(&uv, &n, 98304);
    assert_eq!((r.x(), r.y(), r.z()), (0, -SCALE, 0));
}

#[test]
fn interval_tests_and_clamp() {
    let i = Interval::new(10, 20);
    assert!(i.contains(10));
    assert!(i.contains(20));
    assert!(!i.surrounds(10));
    assert!(i.surrounds(15));
    assert!(!i.surrounds(20));
    assert_eq!(i.clamp(5), 10);
    assert_eq!(i.clamp(25), 20);
    assert_eq!(i.clamp(17), 17);
}

#[test]
fn channel_encoding_round_trip() {
    // Full white maps to 255, black to 0.
    assert_eq!(channel_byte(SCALE), 255);
    assert_eq!(channel_byte(0), 0);
    assert_eq!(channel_byte(-5 * SCALE), 0);
    // Half intensity gamma-corrects to sqrt(0.5) and lands on 181.
    assert_eq!(channel_byte(32768), 181);
}

#[test]
fn pixel_line_format() {
    let mut out: Vec<u8> = Vec::new();
    raytrace::color::write(&mut out, &Vec3::new(SCALE, SCALE, SCALE));
    assert_eq!(out, b"255 255 255\n".to_vec());
    out.clear();
    raytrace::color::write(&mut out, &Vec3::new(0, 0, 0));
    assert_eq!(out, b"0 0 0\n".to_vec());
}

#[test]
fn metal_fuzz_is_clamped() {
    let albedo = Vec3::new(SCALE / 2, SCALE / 2, SCALE / 2);
    let hot = Material::metal(albedo, 10 * SCALE);
    assert!(matches!(hot, Material::Metal { fuzz: 65536, .. }));
    let cold = Material::metal(albedo, -5);
    assert!(matches!(cold, Material::Metal { fuzz: 0, .. }));
    let mid = Material::metal(albedo, 1234);
    assert!(matches!(mid, Material::Metal { fuzz: 1234, .. }));
}

#[test]
fn seeded_sampler_is_reproducible_and_in_range() {
    let mut a = Sampler::Seeded(42);
    let mut b = Sampler::Seeded(42);
    for _ in 0..100 {
        let x = a.sample(-65536, 65536);
        let y = b.sample(-65536, 65536);
        assert_eq!(x, y);
        assert!((-65536..65536).contains(&x));
    }
    let mut c = Sampler::System;
    for _ in 0..100 {
        let x = c.sample(0, 7);
        assert!((0..7).contains(&x));
    }
}

#[test]
fn random_unit_vector_has_usable_length() {
    let mut s = Sampler::Seeded(7);
    for _ in 0..32 {
        let v = Vec3::random_unit_vector(&mut s);
        let q = v.len_squared();
        // A usable direction of roughly unit length: quantization of a
        // short accepted draw can stretch it, but never to zero.
        assert!(q >= 1 && q <= 4 * SCALE, "len_squared {q}");
    }
}
