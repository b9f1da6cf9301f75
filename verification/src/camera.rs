//! The camera: viewport geometry, per-pixel ray generation with jitter and
//! defocus sampling, the recursive color estimator, and plain-text pixel
//! emission in scan order.

use crate::color::Color;
use crate::color::color01;
use crate::color::line_s;
use crate::color::push_dec;
use crate::fx::SCALE;
use crate::fx::bounded;
use crate::fx::div_fx;
use crate::fx::fdiv;
use crate::fx::fmul;
use crate::fx::lemma_fdiv_split;
use crate::fx::lemma_fmul_bound;
use crate::fx::lemma_fmul_range01;
use crate::fx::lemma_fmul_rel;
use crate::fx::lemma_tdiv_bound;
use crate::fx::lemma_tdiv_exact;
use crate::fx::lemma_tdiv_ordered;
use crate::fx::mul_fx;
use crate::fx::tdiv;
use crate::hittable::Hittable;
use crate::hittable_list::HittableList;
use crate::material::Material;
use crate::material::diel_dir;
use crate::material::draw_ok;
use crate::material::lamb_dir;
use crate::material::metal_admit;
use crate::material::metal_dir;
use crate::material::metal_outcome;
use crate::material::sample_vec_ok;
use crate::hittable_list::list_hit_spec;
use crate::interval::Interval;
use crate::interval::T_LIM;
use crate::interval::clamp_s;
use crate::ray::DIR_LIM;
use crate::ray::Ray;
use crate::sampler::Sampler;
use crate::sphere::Sphere;
use crate::vec3::Point3;
use crate::vec3::V3;
use crate::vec3::Vec3;
use crate::vec3::add_s;
use crate::vec3::bounded3;
use crate::vec3::cross_s;
use crate::vec3::div_s;
use crate::vec3::lemma_cross_bound;
use crate::vec3::lemma_scale_bound;
use crate::vec3::lensq_s;
use crate::vec3::mul_s;
use crate::vec3::neg_s;
use crate::vec3::reflect_s;
use crate::vec3::scale_s;
use crate::vec3::sub_s;
use crate::vec3::unit_s;
use vstd::arithmetic::div_mod::lemma_div_by_multiple;
use vstd::arithmetic::div_mod::lemma_div_denominator;
use vstd::arithmetic::div_mod::lemma_div_is_ordered;
use vstd::arithmetic::div_mod::lemma_div_is_ordered_by_denominator;
use vstd::arithmetic::div_mod::lemma_div_nonincreasing;
use vstd::arithmetic::div_mod::lemma_div_pos_is_pos;
use vstd::arithmetic::div_mod::lemma_fundamental_div_mod;
use vstd::prelude::*;

verus! {

/// Lower end of the hit acceptance window: keeps scattered rays from
/// re-hitting their own origin surface.
pub const SHADOW_EPS: i64 = 66;

pub struct Camera {
    pub image_width: i32,
    pub image_height: i32,
    pub center: Point3,
    pub pixel00_loc: Point3,
    pub pixel_delta_u: Vec3,
    pub pixel_delta_v: Vec3,
    pub defocus_disk_u: Vec3,
    pub defocus_disk_v: Vec3,
    pub defocus_half_tan: i64,
    pub samples_per_pixel: i32,
    pub pixel_samples_scale: i64,
    pub max_depth: i32,
}

pub struct Settings {
    pub aspect_ratio: i64,
    pub image_width: i32,
    pub samples_per_pixel: i32,
    pub max_depth: i32,
    pub vfov_half_tan: i64,
    pub lookfrom: Point3,
    pub lookat: Point3,
    pub vup: Vec3,
    pub defocus_half_tan: i64,
    pub focus_dist: i64,
}

/// The view axis: from the target toward the eye.
pub open spec fn settings_w(s: Settings) -> V3 {
    unit_s(sub_s(s.lookfrom@, s.lookat@))
}

impl Settings {
    /// The numeric envelope the camera derivation is proved within, with a
    /// usable view axis and an up vector not parallel to it.
    pub open spec fn wf(self) -> bool {
        8192 <= self.aspect_ratio <= 524288 && 1 <= self.image_width <= 2048 && 1
            <= self.samples_per_pixel <= 4096 && 0 <= self.max_depth <= 128 && 1
            <= self.vfov_half_tan <= 131072 && bounded3(self.lookfrom@, 0x100_0000) && bounded3(
            self.lookat@,
            0x100_0000,
        ) && bounded3(self.vup@, 0x10_0000) && 0 <= self.defocus_half_tan <= 16384 && 1
            <= self.focus_dist <= 0x40_0000 && lensq_s(sub_s(self.lookfrom@, self.lookat@)) >= 1
            && lensq_s(cross_s(self.vup@, settings_w(self))) >= 1
    }

    /// Decide `wf` at run time, so callers can reject a configuration
    /// instead of relying on an unprovable assumption.
    pub fn check(&self) -> (r: bool)
        ensures
            r == self.wf(),
    {
        let ranges = 8192 <= self.aspect_ratio && self.aspect_ratio <= 524288 && 1
            <= self.image_width && self.image_width <= 2048 && 1 <= self.samples_per_pixel
            && self.samples_per_pixel <= 4096 && 0 <= self.max_depth && self.max_depth <= 128 && 1
            <= self.vfov_half_tan && self.vfov_half_tan <= 131072 && self.lookfrom.check_bounded(
            0x100_0000,
        ) && self.lookat.check_bounded(0x100_0000) && self.vup.check_bounded(0x10_0000) && 0
            <= self.defocus_half_tan && self.defocus_half_tan <= 16384 && 1 <= self.focus_dist
            && self.focus_dist <= 0x40_0000;
        if !ranges {
            return false;
        }
        let axis = self.lookfrom.sub(&self.lookat);
        if axis.len_squared() < 1 {
            return false;
        }
        let w3 = axis.unit();
        proof {
            lemma_cross_bound(self.vup@, w3@, 0x10_0000, 131072);
            assert(0x10_0000int * 131072 == 2097152 * 65536) by (nonlinear_arith);
            lemma_div_by_multiple(2097152, 65536);
        }
        let c = Vec3::cross(&self.vup, &w3);
        c.len_squared() >= 1
    }
}

impl Default for Settings {
    /// A deterministic reference configuration: a 16:9 image 400 pixels
    /// wide, 100 samples, depth 50, a 20-degree vertical field of view from
    /// (-2, 2, 1) toward (0, 0, -1), a 0.6-degree defocus cone and a focus
    /// distance of 10 (angles carried as tangents of their half-angle).
    fn default() -> (r: Self)
        ensures
            r.aspect_ratio == 116508,
            r.image_width == 400,
            r.samples_per_pixel == 100,
            r.max_depth == 50,
            r.vfov_half_tan == 11556,
            r.lookfrom@ == (-131072int, 131072int, 65536int),
            r.lookat@ == (0int, 0int, -65536int),
            r.vup@ == (0int, 65536int, 0int),
            r.defocus_half_tan == 343,
            r.focus_dist == 655360,
    {
        Settings {
            aspect_ratio: 116508,
            image_width: 400,
            samples_per_pixel: 100,
            max_depth: 50,
            vfov_half_tan: 11556,
            lookfrom: Vec3 { x: -131072, y: 131072, z: 65536 },
            lookat: Vec3 { x: 0, y: 0, z: -65536 },
            vup: Vec3 { x: 0, y: 65536, z: 0 },
            defocus_half_tan: 343,
            focus_dist: 655360,
        }
    }
}

/// Derived image height: the width over the aspect ratio, rounded half-up,
/// floored at one.
pub open spec fn cam_height(s: Settings) -> int {
    let q = fdiv(s.image_width * (SCALE as int), s.aspect_ratio as int);
    let r = tdiv(q + 32768, 65536);
    if r < 1 {
        1
    } else {
        r
    }
}

pub open spec fn cam_u(s: Settings) -> V3 {
    unit_s(cross_s(s.vup@, settings_w(s)))
}

pub open spec fn cam_v(s: Settings) -> V3 {
    cross_s(settings_w(s), cam_u(s))
}

/// Viewport height in world units: twice the half-angle tangent at the
/// focus distance.
pub open spec fn cam_vh(s: Settings) -> int {
    2 * fmul(s.vfov_half_tan as int, s.focus_dist as int)
}

/// Width-to-height ratio of the image, capped at 32 to keep the viewport
/// inside the representable envelope.
pub open spec fn cam_ratio(s: Settings) -> int {
    let r = fdiv(s.image_width * (SCALE as int), cam_height(s) * (SCALE as int));
    if r > 32 * (SCALE as int) {
        32 * (SCALE as int)
    } else {
        r
    }
}

pub open spec fn cam_vw(s: Settings) -> int {
    fmul(cam_vh(s), cam_ratio(s))
}

pub open spec fn cam_viewport_u(s: Settings) -> V3 {
    scale_s(cam_vw(s), cam_u(s))
}

pub open spec fn cam_viewport_v(s: Settings) -> V3 {
    scale_s(cam_vh(s), neg_s(cam_v(s)))
}

pub open spec fn cam_delta_u(s: Settings) -> V3 {
    div_s(cam_viewport_u(s), s.image_width * (SCALE as int))
}

pub open spec fn cam_delta_v(s: Settings) -> V3 {
    div_s(cam_viewport_v(s), cam_height(s) * (SCALE as int))
}

/// The world position of the center of pixel (0, 0).
pub open spec fn cam_pixel00(s: Settings) -> V3 {
    let ul = sub_s(
        sub_s(
            sub_s(s.lookfrom@, scale_s(s.focus_dist as int, settings_w(s))),
            div_s(cam_viewport_u(s), 2 * (SCALE as int)),
        ),
        div_s(cam_viewport_v(s), 2 * (SCALE as int)),
    );
    add_s(ul, scale_s(32768, add_s(cam_delta_u(s), cam_delta_v(s))))
}

pub open spec fn cam_defocus_radius(s: Settings) -> int {
    fmul(s.focus_dist as int, s.defocus_half_tan as int)
}

impl Camera {
    /// The derived fields lie within the envelope the ray generation and
    /// the estimator are proved within.
    pub open spec fn wf(self) -> bool {
        1 <= self.image_width <= 2048 && 1 <= self.image_height <= 16384 && bounded3(
            self.center@,
            0x100_0000,
        ) && bounded3(self.pixel00_loc@, 0x8000_0000) && bounded3(
            self.pixel_delta_u@,
            0x4000_0000int / (self.image_width as int),
        ) && bounded3(self.pixel_delta_v@, 0x800_0000int / (self.image_height as int)) && bounded3(
            self.defocus_disk_u@,
            0x20_0000,
        ) && bounded3(self.defocus_disk_v@, 0x80_0000) && 0 <= self.defocus_half_tan <= 16384 && 1
            <= self.samples_per_pixel <= 4096 && 1 <= self.pixel_samples_scale
            && self.pixel_samples_scale as int == (SCALE as int) / (self.samples_per_pixel as int)
            && 0 <= self.max_depth <= 128
    }

    /// Derive the viewport and pixel grid from the settings.
    pub fn new(settings: Settings) -> (r: Self)
        requires
            settings.wf(),
        ensures
            r.wf(),
            r.image_width == settings.image_width,
            r.image_height as int == cam_height(settings),
            r.center == settings.lookfrom,
            r.pixel00_loc@ == cam_pixel00(settings),
            r.pixel_delta_u@ == cam_delta_u(settings),
            r.pixel_delta_v@ == cam_delta_v(settings),
            r.defocus_disk_u@ == scale_s(cam_defocus_radius(settings), cam_u(settings)),
            r.defocus_disk_v@ == scale_s(cam_defocus_radius(settings), cam_v(settings)),
            r.defocus_half_tan == settings.defocus_half_tan,
            r.samples_per_pixel == settings.samples_per_pixel,
            r.max_depth == settings.max_depth,
    {
        let wfx: i64 = (settings.image_width as i64) * SCALE;
        proof {
            lemma_tdiv_bound(wfx as int * (SCALE as int), settings.aspect_ratio as int, 0x800_0000_0000);
            lemma_div_is_ordered_by_denominator(0x800_0000_0000, 8192, settings.aspect_ratio as int);
            lemma_div_by_multiple(0x4000_0000, 8192);
        }
        let q: i64 = div_fx(wfx, settings.aspect_ratio);
        proof {
            lemma_div_is_ordered(q as int + 32768, 0x4000_8000, 65536);
            lemma_div_pos_is_pos(q as int + 32768, 65536);
            assert(0x4000_8000int / 65536 == 16384);
        }
        let hr: i64 = (q + 32768) / SCALE;
        let image_height: i32 = if hr < 1 {
            1
        } else {
            hr as i32
        };
        let center = settings.lookfrom;
        let axis = settings.lookfrom.sub(&settings.lookat);
        let w3 = axis.unit();
        proof {
            lemma_cross_bound(settings.vup@, w3@, 0x10_0000, 2 * SCALE as int);
        }
        let cuw = Vec3::cross(&settings.vup, &w3);
        let u3 = cuw.unit();
        proof {
            lemma_cross_bound(w3@, u3@, 2 * SCALE as int, 2 * SCALE as int);
            assert(2 * (((2 * SCALE as int) * (2 * SCALE as int)) / (SCALE as int)) == 8
                * SCALE as int) by {
                assert((2 * SCALE as int) * (2 * SCALE as int) == (4 * SCALE as int) * (
                SCALE as int)) by (nonlinear_arith);
                lemma_div_by_multiple(4 * SCALE as int, SCALE as int);
            }
        }
        let v3 = Vec3::cross(&w3, &u3);
        proof {
            lemma_fmul_bound(settings.vfov_half_tan as int, settings.focus_dist as int, 131072, 0x40_0000);
        }
        let vh: i64 = 2 * mul_fx(settings.vfov_half_tan, settings.focus_dist);
        let hfx: i64 = (image_height as i64) * SCALE;
        proof {
            lemma_tdiv_bound(wfx as int * (SCALE as int), hfx as int, 0x800_0000_0000);
            lemma_div_is_ordered_by_denominator(0x800_0000_0000, 65536, hfx as int);
            lemma_div_by_multiple(0x800_0000, 65536);
        }
        let ratio_raw: i64 = div_fx(wfx, hfx);
        let ratio: i64 = if ratio_raw > 32 * SCALE {
            32 * SCALE
        } else {
            ratio_raw
        };
        proof {
            lemma_fmul_bound(vh as int, ratio as int, 0x100_0000, 0x20_0000);
        }
        let vw: i64 = mul_fx(vh, ratio);
        proof {
            lemma_scale_bound(vw as int, u3@, 0x2000_0000, 2 * SCALE as int);
            lemma_scale_bound(vh as int, neg_s(v3@), 0x100_0000, 8 * SCALE as int);
        }
        let viewport_u = u3.scale(vw);
        let viewport_v = v3.neg().scale(vh);
        proof {
            lemma_fdiv_split(viewport_u@.0, settings.image_width as int, 0x4000_0000);
            lemma_fdiv_split(viewport_u@.1, settings.image_width as int, 0x4000_0000);
            lemma_fdiv_split(viewport_u@.2, settings.image_width as int, 0x4000_0000);
            lemma_fdiv_split(viewport_v@.0, image_height as int, 0x800_0000);
            lemma_fdiv_split(viewport_v@.1, image_height as int, 0x800_0000);
            lemma_fdiv_split(viewport_v@.2, image_height as int, 0x800_0000);
        }
        let pixel_delta_u = viewport_u.div(wfx);
        let pixel_delta_v = viewport_v.div(hfx);
        proof {
            lemma_scale_bound(settings.focus_dist as int, w3@, 0x40_0000, 2 * SCALE as int);
            lemma_fdiv_split(viewport_u@.0, 2, 0x4000_0000);
            lemma_fdiv_split(viewport_u@.1, 2, 0x4000_0000);
            lemma_fdiv_split(viewport_u@.2, 2, 0x4000_0000);
            lemma_fdiv_split(viewport_v@.0, 2, 0x800_0000);
            lemma_fdiv_split(viewport_v@.1, 2, 0x800_0000);
            lemma_fdiv_split(viewport_v@.2, 2, 0x800_0000);
            lemma_div_nonincreasing(0x4000_0000, settings.image_width as int);
            lemma_div_pos_is_pos(0x4000_0000, settings.image_width as int);
            lemma_div_nonincreasing(0x800_0000, image_height as int);
            lemma_div_pos_is_pos(0x800_0000, image_height as int);
        }
        let fw = w3.scale(settings.focus_dist);
        let half_vu = viewport_u.div(2 * SCALE);
        let half_vv = viewport_v.div(2 * SCALE);
        let ul = center.sub(&fw).sub(&half_vu).sub(&half_vv);
        let dsum = pixel_delta_u.add(&pixel_delta_v);
        proof {
            lemma_scale_bound(32768, dsum@, 32768, 0x4800_0000);
        }
        let pixel00_loc = ul.add(&dsum.scale(32768));
        proof {
            lemma_fmul_bound(settings.focus_dist as int, settings.defocus_half_tan as int, 0x40_0000, 16384);
        }
        let defocus_radius: i64 = mul_fx(settings.focus_dist, settings.defocus_half_tan);
        proof {
            lemma_scale_bound(defocus_radius as int, u3@, 0x10_0000, 2 * SCALE as int);
            lemma_scale_bound(defocus_radius as int, v3@, 0x10_0000, 8 * SCALE as int);
        }
        let defocus_disk_u = u3.scale(defocus_radius);
        let defocus_disk_v = v3.scale(defocus_radius);
        proof {
            lemma_tdiv_bound(
                SCALE as int * (SCALE as int),
                settings.samples_per_pixel as int * (SCALE as int),
                SCALE as int * (SCALE as int),
            );
            lemma_div_denominator(
                SCALE as int * (SCALE as int),
                SCALE as int,
                settings.samples_per_pixel as int,
            );
            lemma_div_by_multiple(SCALE as int, SCALE as int);
            assert(settings.samples_per_pixel as int * (SCALE as int) == (SCALE as int) * (
            settings.samples_per_pixel as int)) by (nonlinear_arith);
            lemma_div_is_ordered_by_denominator(SCALE as int, 1, settings.samples_per_pixel as int);
            vstd::arithmetic::div_mod::lemma_div_basics(SCALE as int);
            lemma_div_is_ordered_by_denominator(SCALE as int, settings.samples_per_pixel as int, 4096);
            assert(65536int / 4096 == 16);
        }
        let pixel_samples_scale: i64 = div_fx(SCALE, (settings.samples_per_pixel as i64) * SCALE);
        Camera {
            image_width: settings.image_width,
            image_height,
            center,
            pixel00_loc,
            pixel_delta_u,
            pixel_delta_v,
            defocus_disk_u,
            defocus_disk_v,
            defocus_half_tan: settings.defocus_half_tan,
            samples_per_pixel: settings.samples_per_pixel,
            pixel_samples_scale,
            max_depth: settings.max_depth,
        }
    }
}

/// The sky the estimator returns for a ray that hits nothing: a vertical
/// blend from white at the bottom toward the sky tint at the top, by the
/// unit direction's height `a = (y + 1) / 2`.
pub open spec fn bg_s(u: V3) -> V3 {
    let aa = clamp_s(0, SCALE as int, tdiv(u.1 + SCALE as int, 2));
    add_s(
        scale_s(SCALE as int - aa, (SCALE as int, SCALE as int, SCALE as int)),
        scale_s(aa, (32768, 45875, 65536)),
    )
}

/// The jittered sample position of pixel (i, j) and the ray origin for the
/// drawn jitter `(ox, oy)` and defocus-disk point `(dx, dy)`; a degenerate
/// direction falls back to the fixed axis direction.
pub open spec fn get_ray_spec(
    cam: Camera,
    i: int,
    j: int,
    ox: int,
    oy: int,
    dx: int,
    dy: int,
) -> (V3, V3) {
    let ps = add_s(
        add_s(
            cam.pixel00_loc@,
            scale_s(i * (SCALE as int) + ox, cam.pixel_delta_u@),
        ),
        scale_s(j * (SCALE as int) + oy, cam.pixel_delta_v@),
    );
    let orig = if cam.defocus_half_tan <= 0 {
        cam.center@
    } else {
        add_s(
            add_s(cam.center@, scale_s(dx, cam.defocus_disk_u@)),
            scale_s(dy, cam.defocus_disk_v@),
        )
    };
    let dir = sub_s(ps, orig);
    if bounded3(dir, DIR_LIM as int) && lensq_s(dir) >= 1 {
        (orig, dir)
    } else {
        (orig, (0, 0, -(SCALE as int)))
    }
}

/// Some admissible jitter and defocus draw produces this ray for pixel
/// (i, j).
pub open spec fn pixel_ray_ok(cam: Camera, i: int, j: int, o: V3, d: V3) -> bool {
    exists|ox: int, oy: int, dx: int, dy: int|
        #![trigger get_ray_spec(cam, i, j, ox, oy, dx, dy)]
        bounded(ox, 32768) && bounded(oy, 32768) && bounded(dx, SCALE as int) && bounded(
            dy,
            SCALE as int,
        ) && (o, d) == get_ray_spec(cam, i, j, ox, oy, dx, dy)
}

/// The componentwise sum of a sequence of colors.
pub open spec fn sum3(cs: Seq<V3>) -> V3
    decreases cs.len(),
{
    if cs.len() <= 0 {
        (0int, 0int, 0int)
    } else {
        add_s(sum3(cs.drop_last()), cs.last())
    }
}

/// `c` is a valid single-sample estimate for pixel (i, j): the estimator's
/// value on some admissible camera ray for that pixel.
pub open spec fn pixel_sample_ok(cam: Camera, objs: Seq<Sphere>, i: int, j: int, c: V3) -> bool {
    exists|o: V3, d: V3|
        #![trigger pixel_ray_ok(cam, i, j, o, d)]
        pixel_ray_ok(cam, i, j, o, d) && estimate_ok(objs, o, d, cam.max_depth as int, c)
}

/// `c` is a valid color for pixel (i, j): the configured number of
/// single-sample estimates, summed and scaled by `1 / samples_per_pixel`.
pub open spec fn pixel_mean_ok(cam: Camera, objs: Seq<Sphere>, i: int, j: int, c: V3) -> bool {
    exists|cs: Seq<V3>|
        #![trigger cs.len()]
        cs.len() == cam.samples_per_pixel as int && (forall|k: int|
            0 <= k < cs.len() ==> pixel_sample_ok(cam, objs, i, j, #[trigger] cs[k])) && c
            == scale_s(cam.pixel_samples_scale as int, sum3(cs))
}

impl Camera {
    /// A jitter offset, uniform in `[-1/2, 1/2)` in x and y.
    fn sample_square(sampler: &mut Sampler) -> (r: Vec3)
        ensures
            bounded(r@.0, 32768),
            bounded(r@.1, 32768),
            r@.2 == 0,
    {
        let x = sampler.sample(-32768, 32768);
        let y = sampler.sample(-32768, 32768);
        Vec3::new(x, y, 0)
    }

    /// A point on the defocus disk around the eye.
    fn defocus_disk_sample(&self, sampler: &mut Sampler) -> (r: (Point3, Ghost<(int, int)>))
        requires
            self.wf(),
        ensures
            bounded(r.1@.0, SCALE as int),
            bounded(r.1@.1, SCALE as int),
            r.0@ == add_s(
                add_s(self.center@, scale_s(r.1@.0, self.defocus_disk_u@)),
                scale_s(r.1@.1, self.defocus_disk_v@),
            ),
            bounded3(r.0@, 0x400_0000),
    {
        let p = Vec3::random_in_unit_disk(sampler);
        proof {
            lemma_scale_bound(p@.0, self.defocus_disk_u@, 65536, 0x20_0000);
            lemma_scale_bound(p@.1, self.defocus_disk_v@, 65536, 0x80_0000);
        }
        let du = self.defocus_disk_u.scale(p.x);
        let dv = self.defocus_disk_v.scale(p.y);
        let pt = self.center.add(&du).add(&dv);
        (pt, Ghost((p@.0, p@.1)))
    }

    /// The sampled camera ray for pixel (i, j): jittered within the pixel,
    /// originating on the defocus disk when defocus is enabled.
    pub fn get_ray(&self, i: i32, j: i32, sampler: &mut Sampler) -> (r: Ray)
        requires
            self.wf(),
            0 <= i < self.image_width,
            0 <= j < self.image_height,
        ensures
            r.wf(),
            pixel_ray_ok(*self, i as int, j as int, r.origin@, r.direction@),
    {
        let offset = Self::sample_square(sampler);
        let ifx: i64 = (i as i64) * SCALE + offset.x;
        let jfx: i64 = (j as i64) * SCALE + offset.y;
        proof {
            assert(bounded(ifx as int, (self.image_width as int) * (SCALE as int)))
                by (nonlinear_arith)
                requires
                    0 <= i as int <= self.image_width as int - 1,
                    bounded(offset@.0, 32768),
                    ifx as int == (i as int) * 65536 + offset@.0,
                    SCALE == 65536,
            ;
            assert(bounded(jfx as int, (self.image_height as int) * (SCALE as int)))
                by (nonlinear_arith)
                requires
                    0 <= j as int <= self.image_height as int - 1,
                    bounded(offset@.1, 32768),
                    jfx as int == (j as int) * 65536 + offset@.1,
                    SCALE == 65536,
            ;
            lemma_fmul_rel(ifx as int, self.pixel_delta_u@.0, self.image_width as int, 0x4000_0000);
            lemma_fmul_rel(ifx as int, self.pixel_delta_u@.1, self.image_width as int, 0x4000_0000);
            lemma_fmul_rel(ifx as int, self.pixel_delta_u@.2, self.image_width as int, 0x4000_0000);
            lemma_fmul_rel(jfx as int, self.pixel_delta_v@.0, self.image_height as int, 0x800_0000);
            lemma_fmul_rel(jfx as int, self.pixel_delta_v@.1, self.image_height as int, 0x800_0000);
            lemma_fmul_rel(jfx as int, self.pixel_delta_v@.2, self.image_height as int, 0x800_0000);
            lemma_div_nonincreasing(0x4000_0000, self.image_width as int);
            lemma_div_pos_is_pos(0x4000_0000, self.image_width as int);
            lemma_div_nonincreasing(0x800_0000, self.image_height as int);
            lemma_div_pos_is_pos(0x800_0000, self.image_height as int);
        }
        let su = self.pixel_delta_u.scale(ifx);
        let sv = self.pixel_delta_v.scale(jfx);
        let pixel_sample = self.pixel00_loc.add(&su).add(&sv);
        let (ray_origin, disk) = if self.defocus_half_tan <= 0 {
            (self.center, Ghost((0int, 0int)))
        } else {
            self.defocus_disk_sample(sampler)
        };
        let dir = pixel_sample.sub(&ray_origin);
        let ray_direction = if dir.check_bounded(DIR_LIM) {
            let lq = dir.len_squared();
            if lq >= 1 {
                dir
            } else {
                Vec3::new(0, 0, -SCALE)
            }
        } else {
            Vec3::new(0, 0, -SCALE)
        };
        proof {
            assert((0int - 65536) * (0int - 65536) == 65536 * 65536) by (nonlinear_arith);
            assert((65536int * 65536) / 65536 == 65536);
            assert(lensq_s((0int, 0int, -65536int)) == 65536);
        }
        let r = Ray::new(ray_origin, ray_direction);
        proof {
            assert((r.origin@, r.direction@) == get_ray_spec(
                *self,
                i as int,
                j as int,
                offset@.0,
                offset@.1,
                disk@.0,
                disk@.1,
            ));
        }
        r
    }
}


/// The bytes of the plain-text pixel stream header: magic, dimensions, and
/// the maximum channel value.
pub open spec fn ppm_header_s(w: int, h: int) -> Seq<u8> {
    seq![80u8, 51u8, 10u8] + crate::color::dec_s(w) + seq![32u8] + crate::color::dec_s(h) + seq![
        10u8,
        50u8,
        53u8,
        53u8,
        10u8,
    ]
}

/// The emitted lines of a pixel sequence, in order.
pub open spec fn ppm_lines(pix: Seq<Vec3>) -> Seq<u8>
    decreases pix.len(),
{
    if pix.len() <= 0 {
        Seq::empty()
    } else {
        ppm_lines(pix.drop_last()) + line_s(pix.last()@)
    }
}

/// The background gradient for a unit direction.
fn background(u: &Vec3) -> (c: Color)
    requires
        bounded3(u@, 2 * SCALE as int),
    ensures
        c@ == bg_s(u@),
        color01(c@),
{
    let t: i64 = u.y + SCALE;
    let half: i64 = if t >= 0 {
        t / 2
    } else {
        -((-t) / 2)
    };
    let aa: i64 = if half < 0 {
        0
    } else if half > SCALE {
        SCALE
    } else {
        half
    };
    proof {
        lemma_fmul_range01(SCALE as int - aa as int, 65536);
        lemma_fmul_range01(aa as int, 32768);
        lemma_fmul_range01(aa as int, 45875);
        lemma_fmul_range01(aa as int, 65536);
    }
    let white = Vec3::new(SCALE, SCALE, SCALE);
    let sky = Vec3::new(32768, 45875, SCALE);
    white.scale(SCALE - aa).add(&sky.scale(aa))
}

/// The colors the recursive estimator may return for a ray from `o` along
/// `d` with `depth` bounces left over the scene `objs`: black at the depth
/// cutoff; the background gradient past the scene; on a hit, the scattered
/// estimate attenuated by the surface for some admissible random draw, with
/// an absorbed metal path contributing black.
pub open spec fn estimate_ok(objs: Seq<Sphere>, o: V3, d: V3, depth: int, c: V3) -> bool
    decreases depth,
{
    if depth <= 0 {
        c == (0int, 0int, 0int)
    } else {
        match list_hit_spec(objs, o, d, SHADOW_EPS as int, T_LIM as int) {
            None => c == bg_s(unit_s(d)),
            Some(e) => match e.4 {
                Material::Lambertian { albedo } => exists|rv: V3, inner: V3|
                    #![trigger lamb_dir(e.2, rv), mul_s(albedo@, inner)]
                    sample_vec_ok(rv) && estimate_ok(objs, e.1, lamb_dir(e.2, rv), depth - 1, inner)
                        && c == mul_s(albedo@, inner),
                Material::Metal { albedo, fuzz } => exists|rv: V3|
                    #![trigger sample_vec_ok(rv)]
                    sample_vec_ok(rv) && (if crate::vec3::bounded3(
                        reflect_s(d, e.2),
                        0x40_0000_0000,
                    ) && metal_admit(metal_dir(d, e.2, fuzz as int, rv), e.2) {
                        exists|inner: V3|
                            #![trigger mul_s(albedo@, inner)]
                            estimate_ok(objs, e.1, metal_dir(d, e.2, fuzz as int, rv), depth - 1, inner)
                                && c == mul_s(albedo@, inner)
                    } else {
                        c == (0int, 0int, 0int)
                    }),
                Material::Dielectric { refraction_index } => exists|draw: int, inner: V3|
                    #![trigger diel_dir(d, e.2, e.3, refraction_index as int, draw), mul_s((SCALE as int, SCALE as int, SCALE as int), inner)]
                    draw_ok(draw) && estimate_ok(
                        objs,
                        e.1,
                        diel_dir(d, e.2, e.3, refraction_index as int, draw),
                        depth - 1,
                        inner,
                    ) && c == mul_s((SCALE as int, SCALE as int, SCALE as int), inner),
            },
        }
    }
}

impl Camera {
    /// The recursively estimated color carried by a ray: black at the depth
    /// cutoff, the background gradient past the scene, else the scattered
    /// color attenuated by the surface.
    pub fn ray_color(r: &Ray, depth: i32, world: &HittableList, sampler: &mut Sampler) -> (c:
        Color)
        requires
            r.wf(),
            world.wf(),
        ensures
            color01(c@),
            depth <= 0 ==> c@ == (0int, 0int, 0int),
            depth > 0 && list_hit_spec(
                world.objects@,
                r.origin@,
                r.direction@,
                SHADOW_EPS as int,
                T_LIM as int,
            ) is None ==> c@ == bg_s(unit_s(r.direction@)),
            estimate_ok(world.objects@, r.origin@, r.direction@, depth as int, c@),
        decreases depth,
    {
        if depth <= 0 {
            return Vec3::zero();
        }
        let interval = Interval::new(SHADOW_EPS, T_LIM);
        match world.hit(r, &interval) {
            None => {
                let u = r.direction().unit();
                background(&u)
            },
            Some(rec) => {
                let res = rec.mat.scatter(r, &rec, sampler);
                match res {
                    None => {
                        proof {
                            let ghost objs = world.objects@;
                            let ghost e = rec.entry();
                            match rec.mat {
                                Material::Lambertian { albedo } => {
                                    let rv = choose|rv: V3|
                                        sample_vec_ok(rv) && (res matches Some(sr2)
                                            && sr2.scattered.origin == rec.p
                                            && sr2.scattered.direction@ == lamb_dir(
                                            rec.normal@,
                                            rv,
                                        ) && sr2.attenuation == albedo);
                                    assert(false);
                                },
                                Material::Metal { albedo, fuzz } => {
                                    let rv = choose|rv: V3|
                                        sample_vec_ok(rv) && metal_outcome(
                                            res,
                                            rec.p@,
                                            r.direction@,
                                            rec.normal@,
                                            albedo,
                                            fuzz as int,
                                            rv,
                                        );
                                    assert(!(crate::vec3::bounded3(
                                        reflect_s(r.direction@, e.2),
                                        0x40_0000_0000,
                                    ) && metal_admit(
                                        metal_dir(r.direction@, e.2, fuzz as int, rv),
                                        e.2,
                                    )));
                                    assert(estimate_ok(
                                        objs,
                                        r.origin@,
                                        r.direction@,
                                        depth as int,
                                        (0int, 0int, 0int),
                                    ));
                                },
                                Material::Dielectric { refraction_index } => {
                                    let draw = choose|draw: int|
                                        draw_ok(draw) && (res matches Some(sr2)
                                            && sr2.attenuation@ == (
                                        SCALE as int,
                                        SCALE as int,
                                        SCALE as int,
                                        ) && sr2.scattered.direction@ == diel_dir(
                                            r.direction@,
                                            rec.normal@,
                                            rec.front_face,
                                            refraction_index as int,
                                            draw,
                                        ));
                                    assert(false);
                                },
                            }
                        }
                        Vec3::zero()
                    },
                    Some(sr) => {
                        let inner = Self::ray_color(&sr.scattered, depth - 1, world, sampler);
                        proof {
                            lemma_fmul_range01(sr.attenuation@.0, inner@.0);
                            lemma_fmul_range01(sr.attenuation@.1, inner@.1);
                            lemma_fmul_range01(sr.attenuation@.2, inner@.2);
                        }
                        let out = sr.attenuation.mul(&inner);
                        proof {
                            let ghost objs = world.objects@;
                            let ghost e = rec.entry();
                            match rec.mat {
                                Material::Lambertian { albedo } => {
                                    let rv = choose|rv: V3|
                                        sample_vec_ok(rv) && (res matches Some(sr2)
                                            && sr2.scattered.origin == rec.p
                                            && sr2.scattered.direction@ == lamb_dir(
                                            rec.normal@,
                                            rv,
                                        ) && sr2.attenuation == albedo);
                                    assert(estimate_ok(
                                        objs,
                                        e.1,
                                        lamb_dir(e.2, rv),
                                        depth as int - 1,
                                        inner@,
                                    ));
                                    assert(out@ == mul_s(albedo@, inner@));
                                    assert(estimate_ok(
                                        objs,
                                        r.origin@,
                                        r.direction@,
                                        depth as int,
                                        out@,
                                    ));
                                },
                                Material::Metal { albedo, fuzz } => {
                                    let rv = choose|rv: V3|
                                        sample_vec_ok(rv) && metal_outcome(
                                            res,
                                            rec.p@,
                                            r.direction@,
                                            rec.normal@,
                                            albedo,
                                            fuzz as int,
                                            rv,
                                        );
                                    assert(crate::vec3::bounded3(
                                        reflect_s(r.direction@, e.2),
                                        0x40_0000_0000,
                                    ) && metal_admit(
                                        metal_dir(r.direction@, e.2, fuzz as int, rv),
                                        e.2,
                                    ));
                                    assert(estimate_ok(
                                        objs,
                                        e.1,
                                        metal_dir(r.direction@, e.2, fuzz as int, rv),
                                        depth as int - 1,
                                        inner@,
                                    ));
                                    assert(out@ == mul_s(albedo@, inner@));
                                    assert(estimate_ok(
                                        objs,
                                        r.origin@,
                                        r.direction@,
                                        depth as int,
                                        out@,
                                    ));
                                },
                                Material::Dielectric { refraction_index } => {
                                    let draw = choose|draw: int|
                                        draw_ok(draw) && (res matches Some(sr2)
                                            && sr2.attenuation@ == (
                                        SCALE as int,
                                        SCALE as int,
                                        SCALE as int,
                                        ) && sr2.scattered.direction@ == diel_dir(
                                            r.direction@,
                                            rec.normal@,
                                            rec.front_face,
                                            refraction_index as int,
                                            draw,
                                        ));
                                    assert(estimate_ok(
                                        objs,
                                        e.1,
                                        diel_dir(
                                            r.direction@,
                                            e.2,
                                            e.3,
                                            refraction_index as int,
                                            draw,
                                        ),
                                        depth as int - 1,
                                        inner@,
                                    ));
                                    assert(out@ == mul_s(
                                        (SCALE as int, SCALE as int, SCALE as int),
                                        inner@,
                                    ));
                                    assert(estimate_ok(
                                        objs,
                                        r.origin@,
                                        r.direction@,
                                        depth as int,
                                        out@,
                                    ));
                                },
                            }
                            assert(estimate_ok(objs, r.origin@, r.direction@, depth as int, out@));
                        }
                        out
                    },
                }
            },
        }
    }

    /// The averaged color of one pixel over the configured sample count.
    pub fn render_pixel(&self, i: i32, j: i32, world: &HittableList, sampler: &mut Sampler) -> (c:
        Color)
        requires
            self.wf(),
            world.wf(),
            0 <= i < self.image_width,
            0 <= j < self.image_height,
        ensures
            color01(c@),
            pixel_mean_ok(*self, world.objects@, i as int, j as int, c@),
    {
        let mut sum = Vec3::zero();
        let mut s: i32 = 0;
        let ghost mut cs: Seq<V3> = Seq::<V3>::empty();
        while s < self.samples_per_pixel
            invariant
                self.wf(),
                world.wf(),
                0 <= i < self.image_width,
                0 <= j < self.image_height,
                0 <= s <= self.samples_per_pixel,
                0 <= sum@.0 <= (s as int) * (SCALE as int),
                0 <= sum@.1 <= (s as int) * (SCALE as int),
                0 <= sum@.2 <= (s as int) * (SCALE as int),
                cs.len() == s as int,
                sum@ == sum3(cs),
                forall|k: int|
                    0 <= k < cs.len() ==> pixel_sample_ok(
                        *self,
                        world.objects@,
                        i as int,
                        j as int,
                        #[trigger] cs[k],
                    ),
            decreases self.samples_per_pixel - s,
        {
            let ray = self.get_ray(i, j, sampler);
            let c = Self::ray_color(&ray, self.max_depth, world, sampler);
            proof {
                assert((s as int) * (SCALE as int) <= 4096 * 65536) by (nonlinear_arith)
                    requires
                        0 <= s as int <= 4096,
                        SCALE == 65536,
                ;
                assert(((s as int) + 1) * (SCALE as int) == (s as int) * (SCALE as int)
                    + SCALE as int) by (nonlinear_arith);
                assert(pixel_sample_ok(*self, world.objects@, i as int, j as int, c@));
                let ghost cs2 = cs.push(c@);
                assert(cs2.drop_last() =~= cs);
                assert(cs2.last() == c@);
                assert(sum3(cs2) == add_s(sum3(cs), c@));
                assert forall|k: int| 0 <= k < cs2.len() implies pixel_sample_ok(
                    *self,
                    world.objects@,
                    i as int,
                    j as int,
                    #[trigger] cs2[k],
                ) by {
                    if k < cs.len() {
                        assert(cs2[k] == cs[k]);
                    } else {
                        assert(cs2[k] == c@);
                    }
                }
                cs = cs2;
            }
            sum = sum.add(&c);
            s = s + 1;
        }
        proof {
            let n = self.samples_per_pixel as int;
            let sc = self.pixel_samples_scale as int;
            assert((s as int) * (SCALE as int) <= 4096 * 65536) by (nonlinear_arith)
                requires
                    0 <= s as int <= 4096,
                    SCALE == 65536,
            ;
            lemma_fundamental_div_mod(65536, n);
            assert(n * sc <= 65536);
            assert(sc * sum@.0 <= 65536 * 65536) by (nonlinear_arith)
                requires
                    0 <= sum@.0 <= n * 65536,
                    0 <= sc,
                    n * sc <= 65536,
                    n >= 1,
            ;
            assert(sc * sum@.1 <= 65536 * 65536) by (nonlinear_arith)
                requires
                    0 <= sum@.1 <= n * 65536,
                    0 <= sc,
                    n * sc <= 65536,
                    n >= 1,
            ;
            assert(sc * sum@.2 <= 65536 * 65536) by (nonlinear_arith)
                requires
                    0 <= sum@.2 <= n * 65536,
                    0 <= sc,
                    n * sc <= 65536,
                    n >= 1,
            ;
            assert(sc * sum@.0 >= 0) by (nonlinear_arith)
                requires
                    0 <= sum@.0,
                    0 <= sc,
            ;
            assert(sc * sum@.1 >= 0) by (nonlinear_arith)
                requires
                    0 <= sum@.1,
                    0 <= sc,
            ;
            assert(sc * sum@.2 >= 0) by (nonlinear_arith)
                requires
                    0 <= sum@.2,
                    0 <= sc,
            ;
            lemma_tdiv_ordered(sc * sum@.0, 65536int * 65536, 65536);
            lemma_tdiv_ordered(sc * sum@.1, 65536int * 65536, 65536);
            lemma_tdiv_ordered(sc * sum@.2, 65536int * 65536, 65536);
            lemma_tdiv_exact(65536, 65536);
        }
        let avg = sum.scale(self.pixel_samples_scale);
        proof {
            assert(avg@ == scale_s(self.pixel_samples_scale as int, sum3(cs)));
            assert(pixel_mean_ok(*self, world.objects@, i as int, j as int, avg@));
        }
        avg
    }

    /// Every pixel's averaged color, row-major, top row first.
    pub fn render_colors(&self, world: &HittableList, sampler: &mut Sampler) -> (pix: Vec<Color>)
        requires
            self.wf(),
            world.wf(),
        ensures
            pix@.len() == (self.image_width as int) * (self.image_height as int),
            forall|k: int| 0 <= k < pix@.len() ==> color01(#[trigger] pix@[k]@),
            forall|k: int|
                0 <= k < pix@.len() ==> pixel_mean_ok(
                    *self,
                    world.objects@,
                    k % (self.image_width as int),
                    k / (self.image_width as int),
                    #[trigger] pix@[k]@,
                ),
    {
        let mut pix: Vec<Color> = Vec::new();
        let mut j: i32 = 0;
        while j < self.image_height
            invariant
                self.wf(),
                world.wf(),
                0 <= j <= self.image_height,
                pix@.len() == (j as int) * (self.image_width as int),
                forall|k: int| 0 <= k < pix@.len() ==> color01(#[trigger] pix@[k]@),
                forall|k: int|
                    0 <= k < pix@.len() ==> pixel_mean_ok(
                        *self,
                        world.objects@,
                        k % (self.image_width as int),
                        k / (self.image_width as int),
                        #[trigger] pix@[k]@,
                    ),
            decreases self.image_height - j,
        {
            let mut i: i32 = 0;
            while i < self.image_width
                invariant
                    self.wf(),
                    world.wf(),
                    0 <= j < self.image_height,
                    0 <= i <= self.image_width,
                    pix@.len() == (j as int) * (self.image_width as int) + i as int,
                    forall|k: int| 0 <= k < pix@.len() ==> color01(#[trigger] pix@[k]@),
                    forall|k: int|
                        0 <= k < pix@.len() ==> pixel_mean_ok(
                            *self,
                            world.objects@,
                            k % (self.image_width as int),
                            k / (self.image_width as int),
                            #[trigger] pix@[k]@,
                        ),
                decreases self.image_width - i,
            {
                proof {
                    assert((j as int) * (self.image_width as int) <= 16384 * 2048)
                        by (nonlinear_arith)
                        requires
                            0 <= j as int <= 16384,
                            0 < self.image_width as int <= 2048,
                    ;
                }
                let c = self.render_pixel(i, j, world, sampler);
                proof {
                    vstd::arithmetic::div_mod::lemma_fundamental_div_mod_converse(
                        (j as int) * (self.image_width as int) + i as int,
                        self.image_width as int,
                        j as int,
                        i as int,
                    );
                }
                pix.push(c);
                i = i + 1;
            }
            proof {
                assert(((j as int) + 1) * (self.image_width as int) == (j as int)
                    * (self.image_width as int) + self.image_width as int) by (nonlinear_arith);
            }
            j = j + 1;
        }
        proof {
            assert((self.image_height as int) * (self.image_width as int) == (
            self.image_width as int) * (self.image_height as int)) by (nonlinear_arith);
        }
        pix
    }

    /// The rendered image as one plain-text pixel stream: the header, then
    /// one tone-mapped line per pixel in scan order.
    pub fn render(&self, world: &HittableList, sampler: &mut Sampler) -> (out: Vec<u8>)
        requires
            self.wf(),
            world.wf(),
        ensures
            exists|pix: Seq<Vec3>|
                #![trigger ppm_lines(pix)]
                pix.len() == (self.image_width as int) * (self.image_height as int) && (forall|
                    k: int,
                |
                    0 <= k < pix.len() ==> color01(#[trigger] pix[k]@)) && (forall|k: int|
                    0 <= k < pix.len() ==> pixel_mean_ok(
                        *self,
                        world.objects@,
                        k % (self.image_width as int),
                        k / (self.image_width as int),
                        #[trigger] pix[k]@,
                    )) && out@ == ppm_header_s(
                    self.image_width as int,
                    self.image_height as int,
                ) + ppm_lines(pix),
    {
        let pix = self.render_colors(world, sampler);
        let mut out: Vec<u8> = Vec::new();
        out.push(80);
        out.push(51);
        out.push(10);
        push_dec(&mut out, self.image_width as u32);
        out.push(32);
        push_dec(&mut out, self.image_height as u32);
        out.push(10);
        out.push(50);
        out.push(53);
        out.push(53);
        out.push(10);
        proof {
            assert(out@ =~= ppm_header_s(self.image_width as int, self.image_height as int));
            assert(pix@.take(0) =~= Seq::<Vec3>::empty());
        }
        let ghost header = out@;
        let mut k: usize = 0;
        while k < pix.len()
            invariant
                k <= pix@.len(),
                header == ppm_header_s(self.image_width as int, self.image_height as int),
                out@ == header + ppm_lines(pix@.take(k as int)),
            decreases pix@.len() - k,
        {
            crate::color::write(&mut out, &pix[k]);
            proof {
                assert(pix@.take(k as int + 1).drop_last() =~= pix@.take(k as int));
                assert(pix@.take(k as int + 1).last() == pix@[k as int]);
                assert(out@ =~= header + ppm_lines(pix@.take(k as int + 1)));
            }
            k = k + 1;
        }
        proof {
            assert(pix@.take(pix@.len() as int) =~= pix@);
        }
        out
    }
}


/// The background gradient meets its endpoints exactly: a straight-up unit
/// direction yields the sky tint, a straight-down one yields pure white.
pub proof fn lemma_background_extremes(u: V3)
    ensures
        u.1 == SCALE as int ==> bg_s(u) == (32768int, 45875int, 65536int),
        u.1 == -(SCALE as int) ==> bg_s(u) == (SCALE as int, SCALE as int, SCALE as int),
{
    if u.1 == SCALE as int {
        assert(tdiv(131072, 2) == 65536);
        assert(fmul(0, 65536) == 0) by {
            vstd::arithmetic::div_mod::lemma_basic_div(0int, 65536);
        }
        assert(fmul(65536, 32768) == 32768) by {
            assert(65536int * 32768 == 32768 * 65536) by (nonlinear_arith);
            lemma_tdiv_exact(32768, 65536);
        }
        assert(fmul(65536, 45875) == 45875) by {
            assert(65536int * 45875 == 45875 * 65536) by (nonlinear_arith);
            lemma_tdiv_exact(45875, 65536);
        }
        assert(fmul(65536, 65536) == 65536) by {
            lemma_tdiv_exact(65536, 65536);
        }
    }
    if u.1 == -(SCALE as int) {
        assert(tdiv(0, 2) == 0) by {
            vstd::arithmetic::div_mod::lemma_basic_div(0int, 2);
        }
        assert(fmul(65536, 65536) == 65536) by {
            lemma_tdiv_exact(65536, 65536);
        }
        assert(fmul(0, 32768) == 0) by {
            vstd::arithmetic::div_mod::lemma_basic_div(0int, 65536);
        }
        assert(fmul(0, 45875) == 0) by {
            vstd::arithmetic::div_mod::lemma_basic_div(0int, 65536);
        }
        assert(fmul(0, 65536) == 0) by {
            vstd::arithmetic::div_mod::lemma_basic_div(0int, 65536);
        }
    }
}


} // verus!
