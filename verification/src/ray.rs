//! Rays: an origin point with a direction, evaluated as `origin + t * direction`.

use crate::fx::bounded;
use crate::vec3::Point3;
use crate::vec3::V3;
use crate::vec3::Vec3;
use crate::vec3::add_s;
use crate::vec3::bounded3;
use crate::vec3::lensq_s;
use crate::vec3::scale_s;
use vstd::prelude::*;

verus! {

/// Largest component magnitude of a ray origin.
pub const ORIGIN_LIM: i64 = 0x1000_0000;

/// Largest component magnitude of a ray direction.
pub const DIR_LIM: i64 = 0x4_0000_0000;

#[derive(Clone, Copy, PartialEq, Eq, Structural, Debug)]
pub struct Ray {
    pub origin: Point3,
    pub direction: Vec3,
}

/// The point the ray reaches at parameter `t`.
pub open spec fn at_s(o: V3, d: V3, t: int) -> V3 {
    add_s(o, scale_s(t, d))
}

impl Ray {
    /// Geometrically usable: bounded origin and direction, and a direction
    /// of nonzero length in the fixed-point model.
    pub open spec fn wf(self) -> bool {
        bounded3(self.origin@, ORIGIN_LIM as int) && bounded3(self.direction@, DIR_LIM as int)
            && lensq_s(self.direction@) >= 1
    }

    pub fn new(origin: Point3, direction: Vec3) -> (r: Self)
        ensures
            r.origin == origin,
            r.direction == direction,
    {
        Self { origin, direction }
    }

    pub fn origin(&self) -> (r: &Point3)
        ensures
            r == self.origin,
    {
        &self.origin
    }

    pub fn direction(&self) -> (r: &Vec3)
        ensures
            r == self.direction,
    {
        &self.direction
    }

    /// The point reached at parameter `t`.
    pub fn at(&self, t: i64) -> (r: Vec3)
        requires
            bounded(t as int, 0x10_0000_0000),
            bounded3(self.origin@, 0x1000_0000_0000_0000),
            bounded3(self.direction@, DIR_LIM as int),
        ensures
            r@ == at_s(self.origin@, self.direction@, t as int),
    {
        proof {
            crate::fx::lemma_fmul_bound(t as int, self.direction@.0, 0x10_0000_0000, DIR_LIM as int);
            crate::fx::lemma_fmul_bound(t as int, self.direction@.1, 0x10_0000_0000, DIR_LIM as int);
            crate::fx::lemma_fmul_bound(t as int, self.direction@.2, 0x10_0000_0000, DIR_LIM as int);
        }
        self.origin.add(&self.direction.scale(t))
    }
}

} // verus!
