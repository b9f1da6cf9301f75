//! Three-component fixed-point vectors, used both as points and directions.

use crate::fx::SCALE;
use crate::fx::bounded;
use crate::fx::div_fx;
use crate::fx::fdiv;
use crate::fx::fmul;
use crate::fx::fsqrt;
use crate::fx::lemma_fmul_bound;
use crate::fx::lemma_isqrt_bounds;
use crate::fx::lemma_tdiv_bound;
use crate::fx::lemma_tdiv_ordered;
use crate::fx::mul_fx;
use crate::fx::sqrt_fx;
use crate::fx::tdiv;
use crate::sampler::Sampler;
use vstd::arithmetic::div_mod::lemma_div_by_multiple;
use vstd::arithmetic::div_mod::lemma_div_is_ordered;
use vstd::arithmetic::div_mod::lemma_div_is_ordered_by_denominator;
use vstd::arithmetic::div_mod::lemma_fundamental_div_mod;
use vstd::prelude::*;

verus! {

/// The mathematical value of a vector: its three raw components as integers.
pub type V3 = (int, int, int);

/// Components whose absolute value is below this count as zero-like.
pub const NEAR_EPS: i64 = 256;

#[derive(Clone, Copy, PartialEq, Eq, Structural, Debug)]
pub struct Vec3 {
    pub x: i64,
    pub y: i64,
    pub z: i64,
}

/// A point in space is a vector from the origin.
pub type Point3 = Vec3;

impl View for Vec3 {
    type V = V3;

    open spec fn view(&self) -> V3 {
        (self.x as int, self.y as int, self.z as int)
    }
}

pub open spec fn bounded3(v: V3, b: int) -> bool {
    bounded(v.0, b) && bounded(v.1, b) && bounded(v.2, b)
}

pub open spec fn add_s(a: V3, b: V3) -> V3 {
    (a.0 + b.0, a.1 + b.1, a.2 + b.2)
}

pub open spec fn sub_s(a: V3, b: V3) -> V3 {
    (a.0 - b.0, a.1 - b.1, a.2 - b.2)
}

pub open spec fn neg_s(a: V3) -> V3 {
    (-a.0, -a.1, -a.2)
}

/// Componentwise (Hadamard) fixed-point product.
pub open spec fn mul_s(a: V3, b: V3) -> V3 {
    (fmul(a.0, b.0), fmul(a.1, b.1), fmul(a.2, b.2))
}

/// The vector scaled by the fixed-point factor `t`.
pub open spec fn scale_s(t: int, a: V3) -> V3 {
    (fmul(t, a.0), fmul(t, a.1), fmul(t, a.2))
}

/// The vector divided by the positive fixed-point value `t`.
pub open spec fn div_s(a: V3, t: int) -> V3
    recommends
        t > 0,
{
    (fdiv(a.0, t), fdiv(a.1, t), fdiv(a.2, t))
}

/// Fixed-point dot product, truncated once after the exact sum of products.
pub open spec fn dot_s(a: V3, b: V3) -> int {
    tdiv(a.0 * b.0 + a.1 * b.1 + a.2 * b.2, SCALE as int)
}

pub open spec fn lensq_s(a: V3) -> int {
    dot_s(a, a)
}

pub open spec fn cross_s(a: V3, b: V3) -> V3 {
    (
        fmul(a.1, b.2) - fmul(a.2, b.1),
        fmul(a.2, b.0) - fmul(a.0, b.2),
        fmul(a.0, b.1) - fmul(a.1, b.0),
    )
}

/// Normalization. A vector of zero-like length (squared length below one
/// raw unit) has no usable direction and is returned unchanged.
pub open spec fn unit_s(a: V3) -> V3 {
    if lensq_s(a) < 1 {
        a
    } else {
        div_s(a, fsqrt(lensq_s(a)))
    }
}

pub open spec fn near_zero_s(a: V3) -> bool {
    bounded3(a, NEAR_EPS - 1)
}

/// An accepted rejection-sampling draw for a unit direction: strictly
/// inside the unit ball, with a usable quantized length.
pub open spec fn unit_draw_ok(v: V3) -> bool {
    bounded3(v, SCALE as int) && 1 <= lensq_s(v) < SCALE as int
}

/// Mirror reflection of `v` about the plane with normal `n`.
pub open spec fn reflect_s(v: V3, n: V3) -> V3 {
    sub_s(v, scale_s(2 * dot_s(v, n), n))
}

/// Snell's-law refraction of the unit direction `uv` at normal `n` with the
/// refraction ratio `ratio`.
pub open spec fn refract_s(uv: V3, n: V3, ratio: int) -> V3 {
    let cos = if dot_s(neg_s(uv), n) > SCALE as int {
        SCALE as int
    } else {
        dot_s(neg_s(uv), n)
    };
    let perp = scale_s(ratio, add_s(uv, scale_s(cos, n)));
    let gap = if SCALE as int - lensq_s(perp) >= 0 {
        SCALE as int - lensq_s(perp)
    } else {
        lensq_s(perp) - SCALE as int
    };
    let par = scale_s(-fsqrt(gap), n);
    add_s(perp, par)
}

/// The squared length is never negative, and bounded components bound it.
pub proof fn lemma_lensq_bounds(a: V3, b: int)
    requires
        bounded3(a, b),
        0 <= b,
    ensures
        0 <= lensq_s(a) <= (3 * (b * b)) / (SCALE as int),
{
    assert(0 <= a.0 * a.0 <= b * b) by (nonlinear_arith)
        requires
            -b <= a.0 <= b,
    ;
    assert(0 <= a.1 * a.1 <= b * b) by (nonlinear_arith)
        requires
            -b <= a.1 <= b,
    ;
    assert(0 <= a.2 * a.2 <= b * b) by (nonlinear_arith)
        requires
            -b <= a.2 <= b,
    ;
    assert(b * b >= 0) by (nonlinear_arith);
    lemma_tdiv_bound(a.0 * a.0 + a.1 * a.1 + a.2 * a.2, SCALE as int, 3 * (b * b));
    lemma_tdiv_ordered(0, a.0 * a.0 + a.1 * a.1 + a.2 * a.2, SCALE as int);
}

/// Bounded factors bound the dot product.
pub proof fn lemma_dot_bound(a: V3, b: V3, aa: int, bb: int)
    requires
        bounded3(a, aa),
        bounded3(b, bb),
        0 <= aa,
        0 <= bb,
    ensures
        bounded(dot_s(a, b), (3 * aa * bb) / (SCALE as int)),
{
    assert(-(aa * bb) <= a.0 * b.0 <= aa * bb) by (nonlinear_arith)
        requires
            -aa <= a.0 <= aa,
            -bb <= b.0 <= bb,
            0 <= aa,
            0 <= bb,
    ;
    assert(-(aa * bb) <= a.1 * b.1 <= aa * bb) by (nonlinear_arith)
        requires
            -aa <= a.1 <= aa,
            -bb <= b.1 <= bb,
            0 <= aa,
            0 <= bb,
    ;
    assert(-(aa * bb) <= a.2 * b.2 <= aa * bb) by (nonlinear_arith)
        requires
            -aa <= a.2 <= aa,
            -bb <= b.2 <= bb,
            0 <= aa,
            0 <= bb,
    ;
    assert(aa * bb >= 0) by (nonlinear_arith)
        requires
            0 <= aa,
            0 <= bb,
    ;
    lemma_tdiv_bound(a.0 * b.0 + a.1 * b.1 + a.2 * b.2, SCALE as int, 3 * (aa * bb));
    assert(3 * (aa * bb) == 3 * aa * bb) by (nonlinear_arith);
}

/// One component `c` of a vector whose squared raw sum `sum` has the
/// integer square root scale `l` divides down to at most two units.
proof fn lemma_unit_comp(c: int, sum: int, q: int, l: int)
    requires
        c * c <= sum,
        sum < (q + 1) * (SCALE as int),
        q * (SCALE as int) <= sum,
        1 <= q,
        256 <= l,
        q * (SCALE as int) < (l + 1) * (l + 1),
    ensures
        bounded(fdiv(c, l), 2 * SCALE as int),
{
    let s = SCALE as int;
    assert(sum < 2 * (q * s)) by (nonlinear_arith)
        requires
            sum < (q + 1) * s,
            1 <= q,
            s == 65536,
    ;
    if c > 2 * l || c < -(2 * l) {
        assert(c * c >= (2 * l + 1) * (2 * l + 1)) by (nonlinear_arith)
            requires
                0 <= 2 * l,
                c > 2 * l || c < -(2 * l),
        ;
        assert((2 * l + 1) * (2 * l + 1) > 2 * ((l + 1) * (l + 1))) by (nonlinear_arith)
            requires
                l >= 256,
        ;
        assert(2 * (q * s) <= 2 * ((l + 1) * (l + 1))) by (nonlinear_arith)
            requires
                q * s < (l + 1) * (l + 1),
        ;
        assert(false);
    }
    assert(-(2 * l * s) <= c * s <= 2 * l * s) by (nonlinear_arith)
        requires
            -(2 * l) <= c <= 2 * l,
            s == 65536,
    ;
    assert(2 * l * s >= 0) by (nonlinear_arith)
        requires
            l >= 0,
            s == 65536,
    ;
    lemma_tdiv_bound(c * s, l, 2 * l * s);
    assert(2 * l * s == (2 * s) * l) by (nonlinear_arith);
    lemma_div_by_multiple(2 * s, l);
}

/// A normalized vector of usable length has near-unit components: each
/// component is at most two units, and the squared length is at least one
/// raw unit.
pub proof fn lemma_unit_props(a: V3)
    requires
        bounded3(a, 0x4000_0000_0000),
        lensq_s(a) >= 1,
    ensures
        bounded3(unit_s(a), 2 * SCALE as int),
        lensq_s(unit_s(a)) >= 1,
{
    let s = SCALE as int;
    let sum = a.0 * a.0 + a.1 * a.1 + a.2 * a.2;
    let q = lensq_s(a);
    assert(0 <= a.0 * a.0) by (nonlinear_arith);
    assert(0 <= a.1 * a.1) by (nonlinear_arith);
    assert(0 <= a.2 * a.2) by (nonlinear_arith);
    assert(q == sum / s);
    lemma_fundamental_div_mod(sum, s);
    assert(q * s <= sum < (q + 1) * s) by (nonlinear_arith)
        requires
            sum == s * q + sum % s,
            0 <= sum % s < s,
    ;
    let l = fsqrt(q);
    lemma_isqrt_bounds(q * s);
    assert(l * l <= q * s < (l + 1) * (l + 1));
    // l is at least 256, since q*s is at least 65536.
    assert(s <= q * s) by (nonlinear_arith)
        requires
            1 <= q,
            s == 65536,
    ;
    if l <= 255 {
        assert((l + 1) * (l + 1) <= 65536) by (nonlinear_arith)
            requires
                0 <= l <= 255,
        ;
    }
    assert(l >= 256);
    // Each output component is at most 2*SCALE in magnitude.
    let u = unit_s(a);
    assert(u == div_s(a, l));
    lemma_unit_comp(a.0, sum, q, l);
    lemma_unit_comp(a.1, sum, q, l);
    lemma_unit_comp(a.2, sum, q, l);
    // The largest input component squares to at least a third of the sum.
    let m = if a.0 * a.0 >= a.1 * a.1 && a.0 * a.0 >= a.2 * a.2 {
        a.0
    } else if a.1 * a.1 >= a.2 * a.2 {
        a.1
    } else {
        a.2
    };
    assert(3 * (m * m) >= sum);
    assert(3 * (m * m) >= l * l) by (nonlinear_arith)
        requires
            3 * (m * m) >= sum,
            sum >= q * s,
            q * s >= l * l,
    ;
    // So the corresponding output component is at least 257 in magnitude.
    let am = if m >= 0 {
        m
    } else {
        -m
    };
    assert(am * am == m * m) by (nonlinear_arith)
        requires
            am == m || am == -m,
    ;
    assert(am * s >= 257 * l) by (nonlinear_arith)
        requires
            3 * (am * am) >= l * l,
            am >= 0,
            l >= 0,
            s == 65536,
    ;
    assert(am * s >= 0) by (nonlinear_arith)
        requires
            am >= 0,
            s == 65536,
    ;
    lemma_div_is_ordered(257 * l, am * s, l);
    lemma_div_by_multiple(257, l);
    assert(257 * l == l * 257) by (nonlinear_arith);
    assert(tdiv(am * s, l) >= 257);
    crate::fx::lemma_tdiv_neg(am * s, l);
    assert(m * s == am * s || m * s == -(am * s));
    assert(tdiv(m * s, l) == tdiv(am * s, l) || tdiv(m * s, l) == -tdiv(am * s, l));
    let um = fdiv(m, l);
    assert(um * um >= 257 * 257) by (nonlinear_arith)
        requires
            um >= 257 || um <= -257,
    ;
    // And the output's squared length is at least one raw unit.
    let usum = fdiv(a.0, l) * fdiv(a.0, l) + fdiv(a.1, l) * fdiv(a.1, l) + fdiv(a.2, l) * fdiv(
        a.2,
        l,
    );
    assert(0 <= fdiv(a.0, l) * fdiv(a.0, l)) by (nonlinear_arith);
    assert(0 <= fdiv(a.1, l) * fdiv(a.1, l)) by (nonlinear_arith);
    assert(0 <= fdiv(a.2, l) * fdiv(a.2, l)) by (nonlinear_arith);
    assert(um * um <= usum) by (nonlinear_arith)
        requires
            usum == fdiv(a.0, l) * fdiv(a.0, l) + fdiv(a.1, l) * fdiv(a.1, l) + fdiv(a.2, l)
                * fdiv(a.2, l),
            0 <= fdiv(a.0, l) * fdiv(a.0, l),
            0 <= fdiv(a.1, l) * fdiv(a.1, l),
            0 <= fdiv(a.2, l) * fdiv(a.2, l),
            um == fdiv(a.0, l) || um == fdiv(a.1, l) || um == fdiv(a.2, l),
    ;
    lemma_tdiv_ordered(66049, usum, s);
}

impl Vec3 {
    pub fn zero() -> (r: Self)
        ensures
            r@ == (0int, 0int, 0int),
    {
        Vec3 { x: 0, y: 0, z: 0 }
    }

    pub fn new(x: i64, y: i64, z: i64) -> (r: Self)
        ensures
            r@ == (x as int, y as int, z as int),
    {
        Vec3 { x, y, z }
    }

    pub fn x(&self) -> (r: i64)
        ensures
            r as int == self@.0,
    {
        self.x
    }

    pub fn y(&self) -> (r: i64)
        ensures
            r as int == self@.1,
    {
        self.y
    }

    pub fn z(&self) -> (r: i64)
        ensures
            r as int == self@.2,
    {
        self.z
    }

    /// The component with the given index.
    pub fn at(&self, idx: usize) -> (r: i64)
        requires
            idx < 3,
        ensures
            idx == 0 ==> r as int == self@.0,
            idx == 1 ==> r as int == self@.1,
            idx == 2 ==> r as int == self@.2,
    {
        if idx == 0 {
            self.x
        } else if idx == 1 {
            self.y
        } else {
            self.z
        }
    }

    pub fn add(&self, rhs: &Vec3) -> (r: Vec3)
        requires
            bounded3(self@, 0x2000_0000_0000_0000),
            bounded3(rhs@, 0x2000_0000_0000_0000),
        ensures
            r@ == add_s(self@, rhs@),
    {
        Vec3 { x: self.x + rhs.x, y: self.y + rhs.y, z: self.z + rhs.z }
    }

    pub fn sub(&self, rhs: &Vec3) -> (r: Vec3)
        requires
            bounded3(self@, 0x2000_0000_0000_0000),
            bounded3(rhs@, 0x2000_0000_0000_0000),
        ensures
            r@ == sub_s(self@, rhs@),
    {
        Vec3 { x: self.x - rhs.x, y: self.y - rhs.y, z: self.z - rhs.z }
    }

    pub fn neg(&self) -> (r: Vec3)
        requires
            bounded3(self@, 0x2000_0000_0000_0000),
        ensures
            r@ == neg_s(self@),
    {
        Vec3 { x: -self.x, y: -self.y, z: -self.z }
    }

    /// Componentwise (Hadamard) product.
    pub fn mul(&self, rhs: &Vec3) -> (r: Vec3)
        requires
            bounded3(self@, 0x80_0000_0000),
            bounded3(rhs@, 0x80_0000_0000),
        ensures
            r@ == mul_s(self@, rhs@),
    {
        proof {
            lemma_fmul_bound(self@.0, rhs@.0, 0x80_0000_0000, 0x80_0000_0000);
            lemma_fmul_bound(self@.1, rhs@.1, 0x80_0000_0000, 0x80_0000_0000);
            lemma_fmul_bound(self@.2, rhs@.2, 0x80_0000_0000, 0x80_0000_0000);
        }
        Vec3 { x: mul_fx(self.x, rhs.x), y: mul_fx(self.y, rhs.y), z: mul_fx(self.z, rhs.z) }
    }

    /// The vector scaled by the fixed-point factor `t`.
    pub fn scale(&self, t: i64) -> (r: Vec3)
        requires
            bounded(t as int, 0x40_0000_0000),
            bounded3(self@, 0x40_0000_0000),
        ensures
            r@ == scale_s(t as int, self@),
    {
        proof {
            lemma_fmul_bound(t as int, self@.0, 0x40_0000_0000, 0x40_0000_0000);
            lemma_fmul_bound(t as int, self@.1, 0x40_0000_0000, 0x40_0000_0000);
            lemma_fmul_bound(t as int, self@.2, 0x40_0000_0000, 0x40_0000_0000);
        }
        Vec3 { x: mul_fx(t, self.x), y: mul_fx(t, self.y), z: mul_fx(t, self.z) }
    }

    /// The vector divided by the positive fixed-point value `t`.
    pub fn div(&self, t: i64) -> (r: Vec3)
        requires
            t > 0,
            bounded3(self@, 0x4000_0000_0000),
        ensures
            r@ == div_s(self@, t as int),
    {
        proof {
            let s = SCALE as int;
            let b: int = 0x4000_0000_0000 * s;
            assert forall|c: int| bounded(c, 0x4000_0000_0000) implies bounded(
                fdiv(c, t as int),
                b,
            ) by {
                assert(-b <= c * s <= b) by (nonlinear_arith)
                    requires
                        bounded(c, 0x4000_0000_0000),
                        s == 65536,
                        b == 0x4000_0000_0000 * s,
                ;
                lemma_tdiv_bound(c * s, t as int, b);
                lemma_div_is_ordered_by_denominator(b, 1, t as int);
                vstd::arithmetic::div_mod::lemma_div_basics(b);
            }
        }
        Vec3 { x: div_fx(self.x, t), y: div_fx(self.y, t), z: div_fx(self.z, t) }
    }

    pub fn dot(a: &Vec3, b: &Vec3) -> (r: i64)
        requires
            bounded3(a@, 0x40_0000_0000),
            bounded3(b@, 0x40_0000_0000),
        ensures
            r as int == dot_s(a@, b@),
    {
        proof {
            lemma_dot_bound(a@, b@, 0x40_0000_0000, 0x40_0000_0000);
            assert(bounded(a@.0 * b@.0, 0x1000_0000_0000_0000_0000)) by (nonlinear_arith)
                requires
                    bounded3(a@, 0x40_0000_0000),
                    bounded3(b@, 0x40_0000_0000),
            ;
            assert(bounded(a@.1 * b@.1, 0x1000_0000_0000_0000_0000)) by (nonlinear_arith)
                requires
                    bounded3(a@, 0x40_0000_0000),
                    bounded3(b@, 0x40_0000_0000),
            ;
            assert(bounded(a@.2 * b@.2, 0x1000_0000_0000_0000_0000)) by (nonlinear_arith)
                requires
                    bounded3(a@, 0x40_0000_0000),
                    bounded3(b@, 0x40_0000_0000),
            ;
        }
        let p: i128 = (a.x as i128) * (b.x as i128) + (a.y as i128) * (b.y as i128) + (a.z as i128)
            * (b.z as i128);
        crate::fx::scaled_down(p)
    }

    pub fn cross(a: &Vec3, b: &Vec3) -> (r: Vec3)
        requires
            bounded3(a@, 0x40_0000_0000),
            bounded3(b@, 0x40_0000_0000),
        ensures
            r@ == cross_s(a@, b@),
    {
        proof {
            lemma_fmul_bound(a@.1, b@.2, 0x40_0000_0000, 0x40_0000_0000);
            lemma_fmul_bound(a@.2, b@.1, 0x40_0000_0000, 0x40_0000_0000);
            lemma_fmul_bound(a@.2, b@.0, 0x40_0000_0000, 0x40_0000_0000);
            lemma_fmul_bound(a@.0, b@.2, 0x40_0000_0000, 0x40_0000_0000);
            lemma_fmul_bound(a@.0, b@.1, 0x40_0000_0000, 0x40_0000_0000);
            lemma_fmul_bound(a@.1, b@.0, 0x40_0000_0000, 0x40_0000_0000);
        }
        Vec3 {
            x: mul_fx(a.y, b.z) - mul_fx(a.z, b.y),
            y: mul_fx(a.z, b.x) - mul_fx(a.x, b.z),
            z: mul_fx(a.x, b.y) - mul_fx(a.y, b.x),
        }
    }

    pub fn len_squared(&self) -> (r: i64)
        requires
            bounded3(self@, 0x40_0000_0000),
        ensures
            r as int == lensq_s(self@),
            r >= 0,
    {
        proof {
            lemma_lensq_bounds(self@, 0x40_0000_0000);
        }
        Vec3::dot(self, self)
    }

    pub fn len(&self) -> (r: i64)
        requires
            bounded3(self@, 0x40_0000_0000),
        ensures
            r as int == fsqrt(lensq_s(self@)),
            r >= 0,
    {
        sqrt_fx(self.len_squared())
    }

    /// Normalization; a vector of zero-like length is returned unchanged.
    pub fn unit(&self) -> (r: Vec3)
        requires
            bounded3(self@, 0x40_0000_0000),
        ensures
            r@ == unit_s(self@),
            lensq_s(self@) >= 1 ==> bounded3(r@, 2 * SCALE as int) && lensq_s(r@) >= 1,
    {
        let q = self.len_squared();
        if q < 1 {
            *self
        } else {
            proof {
                lemma_isqrt_bounds(q as int * SCALE as int);
                assert(SCALE as int <= q as int * SCALE as int) by (nonlinear_arith)
                    requires
                        q >= 1,
                ;
                let l = fsqrt(q as int);
                if l < 1 {
                    assert((l + 1) * (l + 1) <= 1) by (nonlinear_arith)
                        requires
                            0 <= l < 1,
                    ;
                }
                assert(l >= 1);
                lemma_unit_props(self@);
            }
            let l = sqrt_fx(q);
            let r = self.div(l);
            r
        }
    }

    /// All components are below the zero-like threshold in magnitude.
    pub fn near_zero(&self) -> (r: bool)
        ensures
            r == near_zero_s(self@),
    {
        self.x > -NEAR_EPS && self.x < NEAR_EPS && self.y > -NEAR_EPS && self.y < NEAR_EPS
            && self.z > -NEAR_EPS && self.z < NEAR_EPS
    }

    /// Mirror reflection of `v` about the plane with normal `n`.
    pub fn reflect(v: &Vec3, n: &Vec3) -> (r: Vec3)
        requires
            bounded3(v@, 0x4_0000_0000),
            bounded3(n@, 0x4_0000),
        ensures
            r@ == reflect_s(v@, n@),
            bounded3(r@, 0x400_0000_0000),
    {
        proof {
            lemma_dot_bound(v@, n@, 0x4_0000_0000, 0x4_0000);
            lemma_fmul_bound(2 * dot_s(v@, n@), n@.0, 0x80_0000_0000, 0x4_0000);
            lemma_fmul_bound(2 * dot_s(v@, n@), n@.1, 0x80_0000_0000, 0x4_0000);
            lemma_fmul_bound(2 * dot_s(v@, n@), n@.2, 0x80_0000_0000, 0x4_0000);
        }
        let d: i64 = Vec3::dot(v, n);
        let d2: i64 = 2 * d;
        Vec3 { x: v.x - mul_fx(d2, n.x), y: v.y - mul_fx(d2, n.y), z: v.z - mul_fx(d2, n.z) }
    }

    /// All components within the symmetric range `[-b, b]`.
    pub fn check_bounded(&self, b: i64) -> (r: bool)
        requires
            b >= 0,
        ensures
            r == bounded3(self@, b as int),
    {
        -b <= self.x && self.x <= b && -b <= self.y && self.y <= b && -b <= self.z && self.z <= b
    }

    /// Snell's-law refraction of the unit direction `uv` at the normal `n`;
    /// the caller has already excluded total internal reflection.
    pub fn refract(uv: &Vec3, n: &Vec3, etai_over_etat: i64) -> (r: Vec3)
        requires
            bounded3(uv@, 4 * SCALE as int),
            bounded3(n@, 4 * SCALE as int),
            0 < etai_over_etat <= 0x10_0000,
        ensures
            r@ == refract_s(uv@, n@, etai_over_etat as int),
    {
        proof {
            lemma_dot_bound(neg_s(uv@), n@, 262144, 262144);
        }
        let mdot: i64 = Vec3::dot(&uv.neg(), n);
        let cos: i64 = if mdot > SCALE {
            SCALE
        } else {
            mdot
        };
        proof {
            assert(bounded(cos as int, 0x40_0000));
            lemma_fmul_bound(cos as int, n@.0, 0x40_0000, 262144);
            lemma_fmul_bound(cos as int, n@.1, 0x40_0000, 262144);
            lemma_fmul_bound(cos as int, n@.2, 0x40_0000, 262144);
        }
        let cn = n.scale(cos);
        let inner = uv.add(&cn);
        proof {
            assert(bounded3(inner@, 0x200_0000));
            lemma_fmul_bound(etai_over_etat as int, inner@.0, 0x10_0000, 0x200_0000);
            lemma_fmul_bound(etai_over_etat as int, inner@.1, 0x10_0000, 0x200_0000);
            lemma_fmul_bound(etai_over_etat as int, inner@.2, 0x10_0000, 0x200_0000);
        }
        let perp = inner.scale(etai_over_etat);
        proof {
            assert(bounded3(perp@, 0x2000_0000));
            lemma_lensq_bounds(perp@, 0x2000_0000);
        }
        let psq: i64 = perp.len_squared();
        let gap: i64 = if SCALE - psq >= 0 {
            SCALE - psq
        } else {
            psq - SCALE
        };
        let root: i64 = sqrt_fx(gap);
        proof {
            let g = gap as int;
            lemma_isqrt_bounds(g * SCALE as int);
            let rt = fsqrt(g);
            assert(g * SCALE as int <= 0x2000_0000_0000_0000) by (nonlinear_arith)
                requires
                    0 <= g <= 0x2000_0000_0000,
            ;
            if rt > 0x8000_0000 {
                assert(rt * rt > 0x2000_0000_0000_0000) by (nonlinear_arith)
                    requires
                        rt > 0x8000_0000,
                ;
            }
            assert(bounded(-rt, 0x8000_0000));
            lemma_fmul_bound(-rt, n@.0, 0x8000_0000, 262144);
            lemma_fmul_bound(-rt, n@.1, 0x8000_0000, 262144);
            lemma_fmul_bound(-rt, n@.2, 0x8000_0000, 262144);
        }
        let par = n.scale(-root);
        perp.add(&par)
    }

    /// A near-unit-length vector with all components drawn uniformly;
    /// rejection sampling with a bounded number of tries. The result is the
    /// normalization of an accepted draw, or a fixed axis direction when
    /// every try was rejected.
    pub fn random_unit_vector(sampler: &mut Sampler) -> (r: Vec3)
        ensures
            bounded3(r@, 2 * SCALE as int),
            lensq_s(r@) >= 1,
            (exists|v: V3| #[trigger] unit_draw_ok(v) && r@ == unit_s(v)) || r@ == (
            0int,
            0int,
            SCALE as int,
            ),
    {
        let mut tries: u32 = 0;
        while tries < 64
            invariant
                tries <= 64,
            decreases 64 - tries,
        {
            let x = sampler.sample(-SCALE, SCALE);
            let y = sampler.sample(-SCALE, SCALE);
            let z = sampler.sample(-SCALE, SCALE);
            let v = Vec3::new(x, y, z);
            let q = v.len_squared();
            if 1 <= q && q < SCALE {
                proof {
                    assert(unit_draw_ok(v@));
                }
                return v.unit();
            }
            tries = tries + 1;
        }
        Vec3::new(0, 0, SCALE)
    }

    /// A point in the unit disk of the x-y plane; rejection sampling with a
    /// bounded number of tries.
    pub fn random_in_unit_disk(sampler: &mut Sampler) -> (r: Vec3)
        ensures
            bounded3(r@, SCALE as int),
            r@.2 == 0,
            lensq_s(r@) < SCALE as int,
    {
        let mut tries: u32 = 0;
        while tries < 64
            invariant
                tries <= 64,
            decreases 64 - tries,
        {
            let x = sampler.sample(-SCALE, SCALE);
            let y = sampler.sample(-SCALE, SCALE);
            let v = Vec3::new(x, y, 0);
            let q = v.len_squared();
            if q < SCALE {
                return v;
            }
            tries = tries + 1;
        }
        Vec3::new(0, 0, 0)
    }
}

/// The dot product is symmetric.
pub proof fn lemma_dot_comm(a: V3, b: V3)
    ensures
        dot_s(a, b) == dot_s(b, a),
{
    assert(a.0 * b.0 == b.0 * a.0) by (nonlinear_arith);
    assert(a.1 * b.1 == b.1 * a.1) by (nonlinear_arith);
    assert(a.2 * b.2 == b.2 * a.2) by (nonlinear_arith);
}

/// Negating the left factor negates the dot product.
pub proof fn lemma_dot_neg_left(a: V3, b: V3)
    ensures
        dot_s(neg_s(a), b) == -dot_s(a, b),
{
    assert((-a.0) * b.0 == -(a.0 * b.0)) by (nonlinear_arith);
    assert((-a.1) * b.1 == -(a.1 * b.1)) by (nonlinear_arith);
    assert((-a.2) * b.2 == -(a.2 * b.2)) by (nonlinear_arith);
    crate::fx::lemma_tdiv_neg(a.0 * b.0 + a.1 * b.1 + a.2 * b.2, SCALE as int);
}

/// Negation keeps the squared length.
pub proof fn lemma_lensq_neg(a: V3)
    ensures
        lensq_s(neg_s(a)) == lensq_s(a),
{
    assert((-a.0) * (-a.0) == a.0 * a.0) by (nonlinear_arith);
    assert((-a.1) * (-a.1) == a.1 * a.1) by (nonlinear_arith);
    assert((-a.2) * (-a.2) == a.2 * a.2) by (nonlinear_arith);
}

/// A vector that is not zero-like has at least one raw unit of squared length.
pub proof fn lemma_not_near_zero(a: V3)
    requires
        !near_zero_s(a),
    ensures
        lensq_s(a) >= 1,
{
    assert(0 <= a.0 * a.0) by (nonlinear_arith);
    assert(0 <= a.1 * a.1) by (nonlinear_arith);
    assert(0 <= a.2 * a.2) by (nonlinear_arith);
    assert(a.0 * a.0 >= 65536 || a.1 * a.1 >= 65536 || a.2 * a.2 >= 65536) by (nonlinear_arith)
        requires
            a.0 >= 256 || a.0 <= -256 || a.1 >= 256 || a.1 <= -256 || a.2 >= 256 || a.2 <= -256,
    ;
    lemma_tdiv_ordered(65536, a.0 * a.0 + a.1 * a.1 + a.2 * a.2, SCALE as int);
}

/// Bounded factors bound a scaled vector.
pub proof fn lemma_scale_bound(t: int, v: V3, tt: int, bb: int)
    requires
        bounded(t, tt),
        bounded3(v, bb),
        0 <= tt,
        0 <= bb,
    ensures
        bounded3(scale_s(t, v), (tt * bb) / (SCALE as int)),
{
    lemma_fmul_bound(t, v.0, tt, bb);
    lemma_fmul_bound(t, v.1, tt, bb);
    lemma_fmul_bound(t, v.2, tt, bb);
}

/// Bounded factors bound the cross product.
pub proof fn lemma_cross_bound(a: V3, b: V3, aa: int, bb: int)
    requires
        bounded3(a, aa),
        bounded3(b, bb),
        0 <= aa,
        0 <= bb,
    ensures
        bounded3(cross_s(a, b), 2 * ((aa * bb) / (SCALE as int))),
{
    lemma_fmul_bound(a.1, b.2, aa, bb);
    lemma_fmul_bound(a.2, b.1, aa, bb);
    lemma_fmul_bound(a.2, b.0, aa, bb);
    lemma_fmul_bound(a.0, b.2, aa, bb);
    lemma_fmul_bound(a.0, b.1, aa, bb);
    lemma_fmul_bound(a.1, b.0, aa, bb);
}

} // verus!
