//! Surface materials and the scattering state machine.

use crate::color::Color;
use crate::color::color01;
use crate::fx::SCALE;
use crate::fx::bounded;
use crate::fx::div_fx;
use crate::fx::fdiv;
use crate::fx::fmul;
use crate::fx::fsqrt;
use crate::fx::is_isqrt;
use crate::fx::lemma_fmul_bound;
use crate::fx::lemma_isqrt_is;
use crate::fx::lemma_isqrt_ordered;
use crate::fx::lemma_tdiv_bound;
use crate::fx::lemma_tdiv_exact;
use crate::fx::lemma_tdiv_ordered;
use crate::fx::mul_fx;
use crate::fx::sqrt_fx;
use crate::hittable::HitRecord;
use crate::ray::DIR_LIM;
use crate::ray::Ray;
use crate::sampler::Sampler;
use crate::vec3::V3;
use crate::vec3::Vec3;
use crate::vec3::add_s;
use crate::vec3::bounded3;
use crate::vec3::dot_s;
use crate::vec3::lemma_dot_bound;
use crate::vec3::lemma_not_near_zero;
use crate::vec3::lensq_s;
use crate::vec3::near_zero_s;
use crate::vec3::neg_s;
use crate::vec3::reflect_s;
use crate::vec3::refract_s;
use crate::vec3::scale_s;
use crate::vec3::unit_s;
use vstd::arithmetic::div_mod::lemma_div_by_multiple;
use vstd::arithmetic::div_mod::lemma_div_is_ordered_by_denominator;
use vstd::prelude::*;

verus! {

#[derive(Clone, Copy, PartialEq, Eq, Structural, Debug)]
pub struct ScatterResult {
    pub attenuation: Color,
    pub scattered: Ray,
}

#[derive(Clone, Copy, PartialEq, Eq, Structural, Debug)]
pub enum Material {
    Lambertian { albedo: Color },
    Metal { albedo: Color, fuzz: i64 },
    Dielectric { refraction_index: i64 },
}

/// A drawn direction suitable for perturbing a scatter: near-unit length.
pub open spec fn sample_vec_ok(rv: V3) -> bool {
    bounded3(rv, 2 * SCALE as int) && lensq_s(rv) >= 1
}

/// A Schlick draw: uniform in `[0, 1)`.
pub open spec fn draw_ok(d: int) -> bool {
    0 <= d < SCALE as int
}

/// The Lambertian scatter direction for the drawn vector `rv`: normal plus
/// draw, falling back to the bare normal when that sum is zero-like.
pub open spec fn lamb_dir(n: V3, rv: V3) -> V3 {
    if near_zero_s(add_s(n, rv)) {
        n
    } else {
        add_s(n, rv)
    }
}

/// The metal scatter direction for the drawn vector `rv`: the normalized
/// reflection, perturbed by `fuzz` times the draw.
pub open spec fn metal_dir(vin: V3, n: V3, fuzz: int, rv: V3) -> V3 {
    add_s(unit_s(reflect_s(vin, n)), scale_s(fuzz, rv))
}

/// A metal scatter direction is admitted when it leaves the surface and is
/// usable as a ray direction.
pub open spec fn metal_admit(d: V3, n: V3) -> bool {
    bounded3(d, DIR_LIM as int) && dot_s(d, n) > 0 && lensq_s(d) >= 1
}

/// What a metal scatter returns for the drawn vector `rv`: a reflection
/// outside the representable direction range, or a perturbed direction that
/// does not leave the surface, is absorbed.
pub open spec fn metal_outcome(
    r: Option<ScatterResult>,
    p: V3,
    vin: V3,
    n: V3,
    albedo: Color,
    fuzz: int,
    rv: V3,
) -> bool {
    let d = metal_dir(vin, n, fuzz, rv);
    if bounded3(reflect_s(vin, n), 0x40_0000_0000) && metal_admit(d, n) {
        r matches Some(sr) && sr.scattered.origin@ == p && sr.scattered.direction@ == d
            && sr.attenuation == albedo
    } else {
        r is None
    }
}

/// The effective refraction ratio: inverted on a front face.
pub open spec fn diel_ratio(front: bool, ri: int) -> int {
    if front {
        fdiv(SCALE as int, ri)
    } else {
        ri
    }
}

/// The cosine between the reversed unit incoming direction and the normal,
/// capped at one.
pub open spec fn diel_cos(vin: V3, n: V3) -> int {
    let d = dot_s(neg_s(unit_s(vin)), n);
    if d > SCALE as int {
        SCALE as int
    } else {
        d
    }
}

/// The matching sine, from `sin^2 = 1 - cos^2`, floored at zero.
pub open spec fn diel_sin(vin: V3, n: V3) -> int {
    let g = SCALE as int - fmul(diel_cos(vin, n), diel_cos(vin, n));
    fsqrt(
        if g >= 0 {
            g
        } else {
            0
        },
    )
}

/// Total internal reflection: no refracted direction exists.
pub open spec fn diel_cannot(vin: V3, n: V3, front: bool, ri: int) -> bool {
    fmul(diel_ratio(front, ri), diel_sin(vin, n)) > SCALE as int
}

pub open spec fn pow5_s(x: int) -> int {
    fmul(fmul(fmul(fmul(x, x), x), x), x)
}

/// Schlick's reflectance approximation.
pub open spec fn reflectance_s(cos: int, ratio: int) -> int {
    let r0 = fdiv(SCALE as int - ratio, SCALE as int + ratio);
    let r0sq = fmul(r0, r0);
    r0sq + fmul(SCALE as int - r0sq, pow5_s(SCALE as int - cos))
}

/// The dielectric scatter direction for the Schlick draw `draw`: reflect on
/// total internal reflection or a reflectance-favoring draw, else refract;
/// a direction unusable as a ray falls back to the surface normal.
pub open spec fn diel_dir(vin: V3, n: V3, front: bool, ri: int, draw: int) -> V3 {
    let ratio = diel_ratio(front, ri);
    let ud = unit_s(vin);
    let d0 = if diel_cannot(vin, n, front, ri) || reflectance_s(diel_cos(vin, n), ratio) > draw {
        reflect_s(ud, n)
    } else {
        refract_s(ud, n, ratio)
    };
    if bounded3(d0, DIR_LIM as int) && lensq_s(d0) >= 1 {
        d0
    } else {
        n
    }
}

impl Material {
    /// Valid parameters: albedo channels in `[0, 1]`, fuzz in `[0, 1]`, a
    /// refraction index between one sixteenth and sixteen.
    pub open spec fn wf(self) -> bool {
        match self {
            Material::Lambertian { albedo } => color01(albedo@),
            Material::Metal { albedo, fuzz } => color01(albedo@) && 0 <= fuzz <= SCALE,
            Material::Dielectric { refraction_index } => 4096 <= refraction_index <= 0x10_0000,
        }
    }

    pub fn lambertian(albedo: Color) -> (r: Self)
        requires
            color01(albedo@),
        ensures
            r == (Material::Lambertian { albedo }),
            r.wf(),
    {
        Material::Lambertian { albedo }
    }

    /// Metal with the fuzz clamped into `[0, 1]`.
    pub fn metal(albedo: Color, fuzz: i64) -> (r: Self)
        requires
            color01(albedo@),
        ensures
            r == (Material::Metal {
                albedo,
                fuzz: if fuzz < 0 {
                    0i64
                } else if fuzz > SCALE {
                    SCALE
                } else {
                    fuzz
                },
            }),
            r.wf(),
    {
        let f: i64 = if fuzz < 0 {
            0
        } else if fuzz > SCALE {
            SCALE
        } else {
            fuzz
        };
        Material::Metal { albedo, fuzz: f }
    }

    pub fn dielectric(refraction_index: i64) -> (r: Self)
        requires
            4096 <= refraction_index <= 0x10_0000,
        ensures
            r == (Material::Dielectric { refraction_index }),
            r.wf(),
    {
        Material::Dielectric { refraction_index }
    }

    /// Scatter the incoming ray at a hit. `None` means the path is absorbed.
    pub fn scatter(
        &self,
        r_in: &Ray,
        hit_record: &HitRecord,
        sampler: &mut Sampler,
    ) -> (r: Option<ScatterResult>)
        requires
            self.wf(),
            r_in.wf(),
            hit_record.wf(),
        ensures
            r matches Some(sr) ==> sr.scattered.wf() && sr.scattered.origin == hit_record.p
                && color01(sr.attenuation@),
            (*self) matches Material::Lambertian { albedo } ==> exists|rv: V3|
                #[trigger] sample_vec_ok(rv) && (r matches Some(sr) && sr.scattered.origin
                    == hit_record.p && sr.scattered.direction@ == lamb_dir(hit_record.normal@, rv)
                    && sr.attenuation == albedo),
            (*self) matches Material::Metal { albedo, fuzz } ==> exists|rv: V3|
                #[trigger] sample_vec_ok(rv) && metal_outcome(
                    r,
                    hit_record.p@,
                    r_in.direction@,
                    hit_record.normal@,
                    albedo,
                    fuzz as int,
                    rv,
                ),
            (*self) matches Material::Metal { albedo, fuzz } ==> (r matches Some(sr)
                ==> dot_s(sr.scattered.direction@, hit_record.normal@) > 0),
            (*self) matches Material::Dielectric { refraction_index } ==> exists|draw: int|
                #[trigger] draw_ok(draw) && (r matches Some(sr) && sr.attenuation@ == (
                SCALE as int,
                SCALE as int,
                SCALE as int,
            ) && sr.scattered.direction@ == diel_dir(
                    r_in.direction@,
                    hit_record.normal@,
                    hit_record.front_face,
                    refraction_index as int,
                    draw,
                )),
            (*self) matches Material::Dielectric { refraction_index } ==> ((diel_cannot(
                r_in.direction@,
                hit_record.normal@,
                hit_record.front_face,
                refraction_index as int,
            ) && bounded3(
                reflect_s(unit_s(r_in.direction@), hit_record.normal@),
                DIR_LIM as int,
            ) && lensq_s(reflect_s(unit_s(r_in.direction@), hit_record.normal@)) >= 1) ==> (
            r matches Some(sr) && sr.scattered.direction@ == reflect_s(
                unit_s(r_in.direction@),
                hit_record.normal@,
            ))),
    {
        match self {
            Material::Lambertian { albedo } => {
                let rv = Vec3::random_unit_vector(sampler);
                let sum = hit_record.normal.add(&rv);
                let dir = if sum.near_zero() {
                    hit_record.normal
                } else {
                    sum
                };
                proof {
                    if !near_zero_s(sum@) {
                        lemma_not_near_zero(sum@);
                    }
                    assert(sample_vec_ok(rv@));
                }
                let res = Some(
                    ScatterResult {
                        attenuation: *albedo,
                        scattered: Ray::new(hit_record.p, dir),
                    },
                );
                proof {
                    assert(res matches Some(sr) && sr.scattered.direction@ == lamb_dir(
                        hit_record.normal@,
                        rv@,
                    ));
                }
                res
            },
            Material::Metal { albedo, fuzz } => {
                let reflected = Vec3::reflect(r_in.direction(), &hit_record.normal);
                if !reflected.check_bounded(0x40_0000_0000) {
                    proof {
                        assert((65536int * 65536int) / 65536int == 65536int);
                        assert(sample_vec_ok((0int, 0int, SCALE as int)));
                        assert(metal_outcome(
                            None,
                            hit_record.p@,
                            r_in.direction@,
                            hit_record.normal@,
                            *albedo,
                            *fuzz as int,
                            (0int, 0int, SCALE as int),
                        ));
                    }
                    return None;
                }
                let runit = reflected.unit();
                let rv = Vec3::random_unit_vector(sampler);
                proof {
                    lemma_fmul_bound(*fuzz as int, rv@.0, SCALE as int, 2 * SCALE as int);
                    lemma_fmul_bound(*fuzz as int, rv@.1, SCALE as int, 2 * SCALE as int);
                    lemma_fmul_bound(*fuzz as int, rv@.2, SCALE as int, 2 * SCALE as int);
                }
                let fz = rv.scale(*fuzz);
                let d = runit.add(&fz);
                proof {
                    assert(sample_vec_ok(rv@));
                    assert(d@ == metal_dir(r_in.direction@, hit_record.normal@, *fuzz as int, rv@));
                }
                if !d.check_bounded(DIR_LIM) {
                    return None;
                }
                let dn = Vec3::dot(&d, &hit_record.normal);
                let lq = d.len_squared();
                if dn <= 0 || lq < 1 {
                    return None;
                }
                Some(
                    ScatterResult {
                        attenuation: *albedo,
                        scattered: Ray::new(hit_record.p, d),
                    },
                )
            },
            Material::Dielectric { refraction_index } => {
                let ri: i64 = *refraction_index;
                let (dir, draw) = dielectric_direction(
                    r_in,
                    &hit_record.normal,
                    hit_record.front_face,
                    ri,
                    sampler,
                );
                proof {
                    assert(draw_ok(draw@));
                }
                Some(
                    ScatterResult {
                        attenuation: Color::new(SCALE, SCALE, SCALE),
                        scattered: Ray::new(hit_record.p, dir),
                    },
                )
            },
        }
    }
}

/// The dielectric scatter direction, with the Schlick draw it was decided
/// by returned as a ghost value.
fn dielectric_direction(
    r_in: &Ray,
    normal: &Vec3,
    front_face: bool,
    ri: i64,
    sampler: &mut Sampler,
) -> (res: (Vec3, Ghost<int>))
    requires
        r_in.wf(),
        bounded3(normal@, 2 * SCALE as int),
        lensq_s(normal@) >= 1,
        4096 <= ri <= 0x10_0000,
    ensures
        draw_ok(res.1@),
        res.0@ == diel_dir(r_in.direction@, normal@, front_face, ri as int, res.1@),
        bounded3(res.0@, DIR_LIM as int),
        lensq_s(res.0@) >= 1,
{
    let ratio: i64 = if front_face {
        proof {
            lemma_tdiv_bound(SCALE as int * SCALE as int, ri as int, SCALE as int * SCALE as int);
            lemma_div_is_ordered_by_denominator(SCALE as int * SCALE as int, 4096, ri as int);
            lemma_div_by_multiple(0x10_0000, 4096);
            lemma_div_is_ordered_by_denominator(SCALE as int * SCALE as int, ri as int, 0x10_0000);
            lemma_div_by_multiple(4096, 0x10_0000);
        }
        div_fx(SCALE, ri)
    } else {
        ri
    };
    let ud = r_in.direction().unit();
    proof {
        assert(bounded3(ud@, 2 * SCALE as int));
        assert(bounded3(neg_s(ud@), 2 * SCALE as int));
    }
    let mdot = Vec3::dot(&ud.neg(), normal);
    proof {
        lemma_dot_bound(neg_s(ud@), normal@, 2 * SCALE as int, 2 * SCALE as int);
        assert(3 * (2 * SCALE as int) * (2 * SCALE as int) == 786432 * (SCALE as int))
            by (nonlinear_arith);
        lemma_div_by_multiple(786432, SCALE as int);
        assert(bounded(mdot as int, 786432));
    }
    let cos: i64 = if mdot > SCALE {
        SCALE
    } else {
        mdot
    };
    proof {
        lemma_fmul_bound(cos as int, cos as int, 786432, 786432);
        assert(cos as int * cos as int >= 0) by (nonlinear_arith);
        lemma_tdiv_ordered(0, cos as int * cos as int, SCALE as int);
    }
    let csq = mul_fx(cos, cos);
    let gap: i64 = SCALE - csq;
    let gapc: i64 = if gap >= 0 {
        gap
    } else {
        0
    };
    let sin = sqrt_fx(gapc);
    proof {
        lemma_isqrt_ordered(gapc as int * SCALE as int, 4294967296);
        assert(is_isqrt(4294967296, 65536));
        lemma_isqrt_is(4294967296, 65536);
        assert(gapc as int * SCALE as int <= 4294967296) by (nonlinear_arith)
            requires
                0 <= gapc <= 65536,
        ;
        lemma_fmul_bound(ratio as int, fsqrt(gapc as int), 0x10_0000, 65536);
    }
    let cannot_refract = mul_fx(ratio, sin) > SCALE;
    let refl = reflectance(cos, ratio);
    let draw = sampler.sample(0, SCALE);
    let dir_raw = if cannot_refract || refl > draw {
        Vec3::reflect(&ud, normal)
    } else {
        Vec3::refract(&ud, normal, ratio)
    };
    let dir = if dir_raw.check_bounded(DIR_LIM) {
        let lq = dir_raw.len_squared();
        if lq >= 1 {
            dir_raw
        } else {
            *normal
        }
    } else {
        *normal
    };
    proof {
        assert(dir@ == diel_dir(r_in.direction@, normal@, front_face, ri as int, draw as int));
    }
    (dir, Ghost(draw as int))
}

/// Schlick's reflectance approximation for a capped cosine and an effective
/// refraction ratio.
fn reflectance(cos: i64, ratio: i64) -> (r: i64)
    requires
        -786432 <= cos <= 65536,
        0 < ratio <= 0x10_0000,
    ensures
        r as int == reflectance_s(cos as int, ratio as int),
{
    proof {
        let s = SCALE as int;
        let num = s - ratio as int;
        let den = s + ratio as int;
        assert(-(den * s) <= num * s <= den * s) by (nonlinear_arith)
            requires
                0 < ratio as int,
                num == s - ratio as int,
                den == s + ratio as int,
                s == 65536,
        ;
        assert(den * s >= 0) by (nonlinear_arith)
            requires
                den > 0,
                s == 65536,
        ;
        lemma_tdiv_bound(num * s, den, den * s);
        assert(den * s == s * den) by (nonlinear_arith);
        lemma_div_by_multiple(s, den);
    }
    let r0 = div_fx(SCALE - ratio, SCALE + ratio);
    proof {
        assert(r0 as int * r0 as int >= 0) by (nonlinear_arith);
        assert(r0 as int * r0 as int <= SCALE as int * SCALE as int) by (nonlinear_arith)
            requires
                -(SCALE as int) <= r0 as int <= SCALE as int,
        ;
        lemma_tdiv_ordered(0, r0 as int * r0 as int, SCALE as int);
        lemma_tdiv_ordered(r0 as int * r0 as int, SCALE as int * SCALE as int, SCALE as int);
        lemma_tdiv_exact(SCALE as int, SCALE as int);
    }
    let r0sq = mul_fx(r0, r0);
    let x: i64 = SCALE - cos;
    proof {
        lemma_fmul_bound(x as int, x as int, 851968, 851968);
        assert(x as int * x as int >= 0) by (nonlinear_arith);
        lemma_tdiv_ordered(0, x as int * x as int, SCALE as int);
    }
    let p2 = mul_fx(x, x);
    proof {
        lemma_fmul_bound(p2 as int, x as int, 11075584, 851968);
        assert(p2 as int * x as int >= 0) by (nonlinear_arith)
            requires
                p2 >= 0,
                x >= 0,
        ;
        lemma_tdiv_ordered(0, p2 as int * x as int, SCALE as int);
    }
    let p3 = mul_fx(p2, x);
    proof {
        lemma_fmul_bound(p3 as int, x as int, 143982592, 851968);
        assert(p3 as int * x as int >= 0) by (nonlinear_arith)
            requires
                p3 >= 0,
                x >= 0,
        ;
        lemma_tdiv_ordered(0, p3 as int * x as int, SCALE as int);
    }
    let p4 = mul_fx(p3, x);
    proof {
        lemma_fmul_bound(p4 as int, x as int, 1871773696, 851968);
        assert(p4 as int * x as int >= 0) by (nonlinear_arith)
            requires
                p4 >= 0,
                x >= 0,
        ;
        lemma_tdiv_ordered(0, p4 as int * x as int, SCALE as int);
    }
    let p5 = mul_fx(p4, x);
    proof {
        lemma_fmul_bound(SCALE as int - r0sq as int, p5 as int, 65536, 24333058048);
    }
    r0sq + mul_fx(SCALE - r0sq, p5)
}

} // verus!
