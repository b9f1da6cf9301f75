//! Spheres and the analytic ray-sphere intersection.

use crate::fx::SCALE;
use crate::fx::bounded;
use crate::fx::fmul;
use crate::fx::is_isqrt;
use crate::fx::isqrt;
use crate::fx::isqrt_u128;
use crate::fx::lemma_fmul_bound;
use crate::fx::mul_fx;
use crate::fx::tdiv;
use crate::fx::lemma_tdiv_exact;
use crate::fx::tdiv128;
use crate::hittable::HitEntry;
use crate::hittable::HitRecord;
use crate::hittable::Hittable;
use crate::interval::Interval;
use crate::material::Material;
use crate::ray::DIR_LIM;
use crate::ray::ORIGIN_LIM;
use crate::ray::Ray;
use crate::ray::at_s;
use crate::vec3::Point3;
use crate::vec3::V3;
use crate::vec3::Vec3;
use crate::vec3::bounded3;
use crate::vec3::div_s;
use crate::vec3::dot_s;
use crate::vec3::lemma_dot_bound;
use crate::vec3::lemma_lensq_bounds;
use crate::vec3::lemma_lensq_neg;
use crate::vec3::lensq_s;
use crate::vec3::neg_s;
use crate::vec3::sub_s;
use crate::vec3::unit_s;
use vstd::prelude::*;

verus! {

/// Largest component magnitude of a sphere center, and largest radius.
pub const CENTER_LIM: i64 = 0x800_0000;

#[derive(Clone, Copy, PartialEq, Eq, Structural, Debug)]
pub struct Sphere {
    pub center: Point3,
    pub radius: i64,
    pub mat: Material,
}

/// The half-b quadratic coefficient `a`: the direction's squared length.
pub open spec fn sph_a(d: V3) -> int {
    lensq_s(d)
}

/// The half-b quadratic coefficient `h`: direction dotted with
/// center-minus-origin.
pub open spec fn sph_h(center: V3, o: V3, d: V3) -> int {
    dot_s(d, sub_s(center, o))
}

/// The quadratic coefficient `c`: squared center distance less the squared
/// radius.
pub open spec fn sph_c(center: V3, radius: int, o: V3) -> int {
    lensq_s(sub_s(center, o)) - fmul(radius, radius)
}

/// The discriminant of the half-b quadratic, at doubled scale.
pub open spec fn sph_disc(center: V3, radius: int, o: V3, d: V3) -> int {
    sph_h(center, o, d) * sph_h(center, o, d) - sph_a(d) * sph_c(center, radius, o)
}

/// The hit entry a sphere yields at the accepted root `root`: the reached
/// point, the outward normal scaled by the inverse radius, oriented against
/// the ray. A point or normal outside the representable envelope yields
/// nothing.
pub open spec fn sphere_hit_at(
    center: V3,
    radius: int,
    mat: Material,
    o: V3,
    d: V3,
    root: int,
) -> Option<HitEntry> {
    let p = at_s(o, d, root);
    let on = div_s(sub_s(p, center), radius);
    if bounded3(p, ORIGIN_LIM as int) && bounded3(on, 2 * SCALE as int) && lensq_s(on) >= 1 {
        let front = dot_s(d, on) < 0;
        Some(
            (
                root,
                p,
                if front {
                    on
                } else {
                    neg_s(on)
                },
                front,
                mat,
            ),
        )
    } else {
        None
    }
}

/// The nearest intersection of a sphere with the ray `o + t d`, accepting
/// roots strictly inside `(tmin, tmax)`: the smaller root of the half-b
/// quadratic is tried first, then the larger.
pub open spec fn sphere_hit_spec(
    center: V3,
    radius: int,
    mat: Material,
    o: V3,
    d: V3,
    tmin: int,
    tmax: int,
) -> Option<HitEntry> {
    let a = sph_a(d);
    let h = sph_h(center, o, d);
    let disc = sph_disc(center, radius, o, d);
    if disc < 0 {
        None
    } else {
        let sq = isqrt(disc);
        let r1 = tdiv((h - sq) * (SCALE as int), a);
        let r2 = tdiv((h + sq) * (SCALE as int), a);
        if tmin < r1 && r1 < tmax {
            sphere_hit_at(center, radius, mat, o, d, r1)
        } else if tmin < r2 && r2 < tmax {
            sphere_hit_at(center, radius, mat, o, d, r2)
        } else {
            None
        }
    }
}

impl Sphere {
    pub fn new(center: Point3, radius: i64, mat: Material) -> (r: Self)
        requires
            bounded3(center@, CENTER_LIM as int),
            1 <= radius <= CENTER_LIM,
            mat.wf(),
        ensures
            r.center == center,
            r.radius == radius,
            r.mat == mat,
            r.wf(),
    {
        Self { center, radius, mat }
    }
}

impl Hittable for Sphere {
    /// Bounded center, a positive bounded radius, a well-formed material.
    open spec fn wf(&self) -> bool {
        bounded3(self.center@, CENTER_LIM as int) && 1 <= self.radius <= CENTER_LIM
            && self.mat.wf()
    }

    open spec fn hit_spec(&self, o: V3, d: V3, tmin: int, tmax: int) -> Option<HitEntry> {
        sphere_hit_spec(self.center@, self.radius as int, self.mat, o, d, tmin, tmax)
    }

    fn hit(&self, ray: &Ray, ray_t: &Interval) -> (r: Option<HitRecord>) {
        let oc = self.center.sub(ray.origin());
        proof {
            lemma_lensq_bounds(ray.direction@, DIR_LIM as int);
            assert(3 * ((DIR_LIM as int) * (DIR_LIM as int)) == 13510798882111488 * 65536)
                by (nonlinear_arith);
            vstd::arithmetic::div_mod::lemma_div_by_multiple(13510798882111488, 65536);
            lemma_dot_bound(ray.direction@, oc@, DIR_LIM as int, 0x3000_0000);
            assert(3 * (DIR_LIM as int) * 0x3000_0000 == 633318697598976 * 65536)
                by (nonlinear_arith);
            vstd::arithmetic::div_mod::lemma_div_by_multiple(633318697598976, 65536);
            lemma_fmul_bound(
                self.radius as int,
                self.radius as int,
                CENTER_LIM as int,
                CENTER_LIM as int,
            );
            assert((CENTER_LIM as int) * (CENTER_LIM as int) == 0x40_0000_0000 * 65536)
                by (nonlinear_arith);
            vstd::arithmetic::div_mod::lemma_div_by_multiple(0x40_0000_0000, 65536);
            lemma_lensq_bounds(oc@, 0x3000_0000);
            assert(3 * (0x3000_0000 * 0x3000_0000int) == 29686813949952 * 65536)
                by (nonlinear_arith);
            vstd::arithmetic::div_mod::lemma_div_by_multiple(29686813949952, 65536);
        }
        let a: i64 = ray.direction().len_squared();
        let h: i64 = Vec3::dot(ray.direction(), &oc);
        let rr: i64 = mul_fx(self.radius, self.radius);
        let c: i64 = oc.len_squared() - rr;
        proof {
            assert(bounded(h as int * h as int, 0x10_0000_0000_0000_0000_0000_0000))
                by (nonlinear_arith)
                requires
                    bounded(h as int, 633318697598976),
            ;
            assert(bounded(a as int * c as int, 0x10_0000_0000_0000_0000_0000_0000))
                by (nonlinear_arith)
                requires
                    bounded(a as int, 13510798882111488),
                    bounded(c as int, 29961583493120),
            ;
        }
        let disc: i128 = (h as i128) * (h as i128) - (a as i128) * (c as i128);
        if disc < 0 {
            return None;
        }
        let sq64: u64 = isqrt_u128(disc as u128);
        proof {
            let sqi = sq64 as int;
            assert(disc as int <= 0x20_0000_0000_0000_0000_0000_0000);
            assert((disc as u128) as int == disc as int);
            assert(sqi * sqi <= disc as int);
            if sqi >= 0x8_0000_0000_0000 {
                assert(sqi * sqi > 0x20_0000_0000_0000_0000_0000_0000) by (nonlinear_arith)
                    requires
                        sqi >= 0x8_0000_0000_0000,
                ;
            }
            assert(sqi < 0x8_0000_0000_0000);
        }
        let sq: i64 = sq64 as i64;
        proof {
            assert(bounded(((h as int) - (sq as int)) * (SCALE as int), 0x1_0000_0000_0000_0000_0000))
                by (nonlinear_arith)
                requires
                    bounded(h as int, 633318697598976),
                    0 <= (sq as int) && (sq as int) < 0x8_0000_0000_0000,
                    SCALE == 65536,
            ;
            assert(bounded(((h as int) + (sq as int)) * (SCALE as int), 0x1_0000_0000_0000_0000_0000))
                by (nonlinear_arith)
                requires
                    bounded(h as int, 633318697598976),
                    0 <= (sq as int) && (sq as int) < 0x8_0000_0000_0000,
                    SCALE == 65536,
            ;
        }
        let num1: i128 = ((h as i128) - (sq as i128)) * (SCALE as i128);
        let r1: i128 = tdiv128(num1, a as i128);
        let tmin: i128 = ray_t.min as i128;
        let tmax: i128 = ray_t.max as i128;
        let root: i64;
        if tmin < r1 && r1 < tmax {
            root = r1 as i64;
        } else {
            let num2: i128 = ((h as i128) + (sq as i128)) * (SCALE as i128);
            let r2: i128 = tdiv128(num2, a as i128);
            if tmin < r2 && r2 < tmax {
                root = r2 as i64;
            } else {
                return None;
            }
        }
        let p = ray.at(root);
        if !p.check_bounded(ORIGIN_LIM) {
            return None;
        }
        let diff = p.sub(&self.center);
        let on = diff.div(self.radius);
        if !on.check_bounded(2 * SCALE) {
            return None;
        }
        let onl = on.len_squared();
        if onl < 1 {
            return None;
        }
        let rec = HitRecord::new(root, p, ray, on, self.mat);
        proof {
            lemma_lensq_neg(on@);
        }
        Some(rec)
    }
}

/// A ray aimed straight at a sphere's center from outside hits it at the
/// parameter `distance-to-center - radius`, and the hit's normal is the
/// reversed unit ray direction. Stated for a unit direction along the
/// negative z axis with the distance and radius multiples of 256 raw units
/// (on which every fixed-point step is exact), the center `256 * dk` below
/// the origin in z and the radius `256 * rk`.
pub proof fn lemma_hit_aimed_at_center(
    o: V3,
    dk: int,
    rk: int,
    mat: Material,
    tmin: int,
    tmax: int,
)
    requires
        bounded3(o, 0x800_0000),
        0 < rk < dk <= 32767,
        0 <= tmin < 256 * (dk - rk) < tmax,
    ensures
        sphere_hit_spec(
            (o.0, o.1, o.2 - 256 * dk),
            256 * rk,
            mat,
            o,
            (0int, 0int, -65536int),
            tmin,
            tmax,
        ) == Some(
            (
                256 * (dk - rk),
                (o.0, o.1, o.2 - 256 * (dk - rk)),
                (0int, 0int, 65536int),
                true,
                mat,
            ),
        ),
        neg_s(unit_s((0int, 0int, -65536int))) == (0int, 0int, 65536int),
{
    let d: V3 = (0int, 0int, -65536int);
    let center: V3 = (o.0, o.1, o.2 - 256 * dk);
    let dist = 256 * dk;
    let r = 256 * rk;
    let oc = sub_s(center, o);
    assert(oc == (0int, 0int, -dist));
    // a = |d|^2 = 1.0
    assert((-65536int) * (-65536int) == 65536 * 65536) by (nonlinear_arith);
    lemma_tdiv_exact(65536, 65536);
    assert(sph_a(d) == 65536);
    // h = d . oc = dist
    assert(0int * 0int == 0) by (nonlinear_arith);
    assert((-65536int) * (-dist) == dist * 65536) by (nonlinear_arith);
    lemma_tdiv_exact(dist, 65536);
    assert(sph_h(center, o, d) == dist);
    // c = dk^2 - rk^2
    assert((-dist) * (-dist) == (dk * dk) * 65536) by (nonlinear_arith)
        requires
            dist == 256 * dk,
    ;
    lemma_tdiv_exact(dk * dk, 65536);
    assert(lensq_s(oc) == dk * dk);
    assert(r * r == (rk * rk) * 65536) by (nonlinear_arith)
        requires
            r == 256 * rk,
    ;
    lemma_tdiv_exact(rk * rk, 65536);
    assert(fmul(r, r) == rk * rk);
    assert(sph_c(center, r, o) == dk * dk - rk * rk);
    // disc = r^2 at doubled scale
    assert(dist * dist - 65536 * (dk * dk - rk * rk) == r * r) by (nonlinear_arith)
        requires
            dist == 256 * dk,
            r == 256 * rk,
    ;
    assert(sph_disc(center, r, o, d) == r * r);
    // sqrt recovers r
    assert(r * r < (r + 1) * (r + 1)) by (nonlinear_arith)
        requires
            r > 0,
    ;
    assert(is_isqrt(r * r, r));
    crate::fx::lemma_isqrt_is(r * r, r);
    // the near root is dist - r, inside the window
    lemma_tdiv_exact(dist - r, 65536);
    assert(tdiv((dist - r) * 65536, 65536) == dist - r);
    let root = dist - r;
    assert(root == 256 * (dk - rk)) by (nonlinear_arith)
        requires
            dist == 256 * dk,
            r == 256 * rk,
            root == dist - r,
    ;
    assert(tmin < root < tmax);
    // the reached point and its outward normal
    assert(fmul(root, 0) == 0) by {
        assert(root * 0int == 0) by (nonlinear_arith);
        vstd::arithmetic::div_mod::lemma_basic_div(0int, 65536);
    }
    assert(fmul(root, -65536) == -root) by {
        assert(root * (-65536int) == -(root * 65536)) by (nonlinear_arith);
        crate::fx::lemma_tdiv_neg(root * 65536, 65536);
        lemma_tdiv_exact(root, 65536);
    }
    let p = at_s(o, d, root);
    assert(p == (o.0, o.1, o.2 - root));
    let diffv = sub_s(p, center);
    assert(diffv == (0int, 0int, r));
    assert(crate::fx::fdiv(0, r) == 0) by {
        assert(0int * 65536 == 0) by (nonlinear_arith);
        vstd::arithmetic::div_mod::lemma_basic_div(0int, r);
    }
    assert(crate::fx::fdiv(r, r) == 65536) by {
        assert(r * 65536 == 65536 * r) by (nonlinear_arith);
        lemma_tdiv_exact(65536, r);
    }
    let on = div_s(diffv, r);
    assert(on == (0int, 0int, 65536int));
    // the guards pass
    assert(bounded3(p, ORIGIN_LIM as int));
    assert(65536int * 65536 == 65536 * 65536) by (nonlinear_arith);
    assert(lensq_s(on) == 65536) by {
        lemma_tdiv_exact(65536, 65536);
    }
    // front face: the normal opposes the ray
    assert(dot_s(d, on) == -65536) by {
        assert((-65536int) * 65536 == -(65536int * 65536)) by (nonlinear_arith);
        crate::fx::lemma_tdiv_neg(65536int * 65536, 65536);
        lemma_tdiv_exact(65536, 65536);
    }
    assert(sphere_hit_at(center, r, mat, o, d, root) == Some(
        (root, p, on, true, mat),
    ));
    // and the stored normal is the reversed unit direction
    assert(lensq_s(d) == 65536);
    assert(is_isqrt(65536int * 65536, 65536)) by (nonlinear_arith);
    crate::fx::lemma_isqrt_is(65536int * 65536, 65536);
    assert(crate::fx::fsqrt(65536) == 65536);
    assert(crate::fx::fdiv(-65536, 65536) == -65536) by {
        assert((-65536int) * 65536 == -(65536int * 65536)) by (nonlinear_arith);
        crate::fx::lemma_tdiv_neg(65536int * 65536, 65536);
        lemma_tdiv_exact(65536, 65536);
    }
    assert(crate::fx::fdiv(0, 65536) == 0) by {
        assert(0int * 65536 == 0) by (nonlinear_arith);
        vstd::arithmetic::div_mod::lemma_basic_div(0int, 65536);
    }
    assert(unit_s(d) == (0int, 0int, -65536int));
}


/// Any hit entry a sphere yields lies strictly inside the acceptance window.
pub proof fn lemma_sphere_hit_in_window(
    center: V3,
    radius: int,
    mat: Material,
    o: V3,
    d: V3,
    tmin: int,
    tmax: int,
)
    ensures
        sphere_hit_spec(center, radius, mat, o, d, tmin, tmax) matches Some(e) ==> tmin < e.0
            < tmax,
{
}

/// Narrowing the upper end of the acceptance window to `b` keeps a hit
/// nearer than `b` unchanged, and discards everything else.
pub proof fn lemma_sphere_hit_narrow(
    center: V3,
    radius: int,
    mat: Material,
    o: V3,
    d: V3,
    tmin: int,
    tmax: int,
    b: int,
)
    requires
        tmin < b <= tmax,
        lensq_s(d) >= 1,
    ensures
        match sphere_hit_spec(center, radius, mat, o, d, tmin, tmax) {
            Some(e) => (e.0 < b ==> sphere_hit_spec(center, radius, mat, o, d, tmin, b) == Some(
                e,
            )) && (e.0 >= b ==> sphere_hit_spec(center, radius, mat, o, d, tmin, b) is None),
            None => sphere_hit_spec(center, radius, mat, o, d, tmin, b) is None,
        },
{
    let a = sph_a(d);
    let h = sph_h(center, o, d);
    let disc = sph_disc(center, radius, o, d);
    if disc >= 0 {
        let sq = isqrt(disc);
        crate::fx::lemma_isqrt_bounds(disc);
        let r1 = tdiv((h - sq) * (SCALE as int), a);
        let r2 = tdiv((h + sq) * (SCALE as int), a);
        assert((h - sq) * 65536 <= (h + sq) * 65536);
        crate::fx::lemma_tdiv_mono((h - sq) * (SCALE as int), (h + sq) * (SCALE as int), a);
        assert(r1 <= r2);
    }
}


} // verus!
