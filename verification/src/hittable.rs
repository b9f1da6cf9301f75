//! Hit records and the intersectable-surface abstraction.

use crate::fx::SCALE;
use crate::interval::Interval;
use crate::material::Material;
use crate::ray::ORIGIN_LIM;
use crate::ray::Ray;
use crate::vec3::Point3;
use crate::vec3::V3;
use crate::vec3::Vec3;
use crate::vec3::bounded3;
use crate::vec3::dot_s;
use crate::vec3::lemma_dot_comm;
use crate::vec3::lemma_dot_neg_left;
use crate::vec3::lemma_lensq_neg;
use crate::vec3::lensq_s;
use crate::vec3::neg_s;
use vstd::prelude::*;

verus! {

/// The mathematical content of a hit: parameter, point, oriented normal,
/// facing flag and the surface's material.
pub type HitEntry = (int, V3, V3, bool, Material);

pub struct HitRecord {
    pub p: Point3,
    pub normal: Vec3,
    pub t: i64,
    pub front_face: bool,
    pub mat: Material,
}

impl HitRecord {
    /// Bounded point, near-unit oriented normal, well-formed material.
    pub open spec fn wf(self) -> bool {
        bounded3(self.p@, ORIGIN_LIM as int) && bounded3(self.normal@, 2 * SCALE as int)
            && lensq_s(self.normal@) >= 1 && self.mat.wf()
    }

    /// The record as a mathematical hit entry.
    pub open spec fn entry(self) -> HitEntry {
        (self.t as int, self.p@, self.normal@, self.front_face, self.mat)
    }

    /// Build a record from the outward normal of the surface, orienting the
    /// stored normal against the incoming ray.
    pub fn new(t: i64, p: Point3, ray: &Ray, outward_normal: Vec3, mat: Material) -> (r: Self)
        requires
            bounded3(ray.direction@, 0x40_0000_0000),
            bounded3(outward_normal@, 0x40_0000_0000),
        ensures
            r.t == t,
            r.p == p,
            r.mat == mat,
            r.front_face == (dot_s(ray.direction@, outward_normal@) < 0),
            r.normal@ == if r.front_face {
                outward_normal@
            } else {
                neg_s(outward_normal@)
            },
            dot_s(r.normal@, ray.direction@) <= 0,
            lensq_s(r.normal@) == lensq_s(outward_normal@),
    {
        let front_face = Vec3::dot(ray.direction(), &outward_normal) < 0;
        let normal = if front_face {
            outward_normal
        } else {
            outward_normal.neg()
        };
        proof {
            lemma_dot_comm(ray.direction@, outward_normal@);
            lemma_dot_neg_left(outward_normal@, ray.direction@);
            lemma_lensq_neg(outward_normal@);
        }
        Self { p, normal, t, front_face, mat }
    }
}

/// A surface a ray can hit. `hit_spec` is the mathematical account of the
/// intersection; `hit` computes it.
pub trait Hittable {
    spec fn wf(&self) -> bool;

    /// What hitting this surface from origin `o` along `d`, accepting
    /// parameters strictly inside `(tmin, tmax)`, yields.
    spec fn hit_spec(&self, o: V3, d: V3, tmin: int, tmax: int) -> Option<HitEntry>;

    /// The nearest accepted intersection, exactly as `hit_spec` states;
    /// any returned record is well-formed and its normal faces the ray.
    fn hit(&self, ray: &Ray, ray_t: &Interval) -> (r: Option<HitRecord>)
        requires
            self.wf(),
            ray.wf(),
            ray_t.hit_window(),
        ensures
            match r {
                Some(rec) => self.hit_spec(
                    ray.origin@,
                    ray.direction@,
                    ray_t.min as int,
                    ray_t.max as int,
                ) == Some(rec.entry()) && rec.wf() && dot_s(rec.normal@, ray.direction@) <= 0
                    && ray_t.min < rec.t < ray_t.max,
                None => self.hit_spec(
                    ray.origin@,
                    ray.direction@,
                    ray_t.min as int,
                    ray_t.max as int,
                ) is None,
            },
    ;
}

} // verus!
