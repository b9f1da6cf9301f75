//! Closed numeric ranges, used both as the acceptance window for ray
//! parameters and as the clamp range for color channels.

use crate::fx::bounded;
use vstd::prelude::*;

verus! {

/// Largest ray-parameter magnitude an acceptance window may carry; it lies
/// beyond the distance of any hit on a well-formed scene, so it stands in
/// for an unbounded upper end.
pub const T_LIM: i64 = 0x10_0000_0000;

#[derive(Clone, Copy, PartialEq, Eq, Structural, Debug)]
pub struct Interval {
    pub min: i64,
    pub max: i64,
}

impl Interval {
    pub fn new(min: i64, max: i64) -> (r: Self)
        ensures
            r.min == min,
            r.max == max,
    {
        Interval { min, max }
    }

    /// Usable as a hit acceptance window: both ends within `T_LIM`.
    pub open spec fn hit_window(self) -> bool {
        bounded(self.min as int, T_LIM as int) && bounded(self.max as int, T_LIM as int)
    }

    /// `x` lies in the closed range.
    pub fn contains(&self, x: i64) -> (r: bool)
        ensures
            r == (self.min <= x <= self.max),
    {
        self.min <= x && x <= self.max
    }

    /// `x` lies strictly between the ends.
    pub fn surrounds(&self, x: i64) -> (r: bool)
        ensures
            r == (self.min < x < self.max),
    {
        self.min < x && x < self.max
    }

    /// `x` forced into the closed range.
    pub fn clamp(&self, x: i64) -> (r: i64)
        requires
            self.min <= self.max,
        ensures
            r as int == clamp_s(self.min as int, self.max as int, x as int),
    {
        if x < self.min {
            self.min
        } else if x > self.max {
            self.max
        } else {
            x
        }
    }
}

pub open spec fn clamp_s(min: int, max: int, x: int) -> int
    recommends
        min <= max,
{
    if x < min {
        min
    } else if x > max {
        max
    } else {
        x
    }
}

} // verus!
