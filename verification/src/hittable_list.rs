//! The scene aggregate: an unordered list of spheres, resolving the nearest
//! accepted hit by narrowing the acceptance window.

use crate::hittable::HitEntry;
use crate::hittable::HitRecord;
use crate::hittable::Hittable;
use crate::interval::Interval;
use crate::ray::Ray;
use crate::sphere::Sphere;
use crate::sphere::sphere_hit_spec;
use crate::vec3::V3;
use vstd::prelude::*;

verus! {

pub struct HittableList {
    pub objects: Vec<Sphere>,
}

/// The hit the list yields: each member is tested on the window narrowed to
/// the best parameter found among the members before it.
pub open spec fn list_hit_spec(
    objs: Seq<Sphere>,
    o: V3,
    d: V3,
    tmin: int,
    tmax: int,
) -> Option<HitEntry>
    decreases objs.len(),
{
    if objs.len() <= 0 {
        None
    } else {
        let prev = list_hit_spec(objs.drop_last(), o, d, tmin, tmax);
        let ub = match prev {
            Some(e) => e.0,
            None => tmax,
        };
        let s = objs.last();
        match sphere_hit_spec(s.center@, s.radius as int, s.mat, o, d, tmin, ub) {
            Some(e2) => Some(e2),
            None => prev,
        }
    }
}

impl Default for HittableList {
    /// An empty scene.
    fn default() -> (r: Self)
        ensures
            r.objects@.len() == 0,
    {
        HittableList { objects: Vec::new() }
    }
}

impl HittableList {
    /// Remove every surface.
    pub fn clear(&mut self)
        ensures
            final(self).objects@.len() == 0,
    {
        self.objects.clear();
    }

    /// Append a surface.
    pub fn add(&mut self, hittable: Sphere)
        ensures
            final(self).objects@ == old(self).objects@.push(hittable),
    {
        self.objects.push(hittable);
    }
}

impl Hittable for HittableList {
    /// Every member is well-formed.
    open spec fn wf(&self) -> bool {
        forall|i: int| 0 <= i < self.objects@.len() ==> (#[trigger] self.objects@[i]).wf()
    }

    open spec fn hit_spec(&self, o: V3, d: V3, tmin: int, tmax: int) -> Option<HitEntry> {
        list_hit_spec(self.objects@, o, d, tmin, tmax)
    }

    fn hit(&self, ray: &Ray, ray_t: &Interval) -> (r: Option<HitRecord>) {
        let mut best: Option<HitRecord> = None;
        let mut closest: i64 = ray_t.max;
        let n: usize = self.objects.len();
        let mut i: usize = 0;
        proof {
            assert(self.objects@.take(0) =~= Seq::<Sphere>::empty());
        }
        while i < n
            invariant
                self.wf(),
                ray.wf(),
                ray_t.hit_window(),
                n == self.objects@.len(),
                0 <= i <= n,
                closest <= ray_t.max,
                crate::fx::bounded(closest as int, crate::interval::T_LIM as int),
                match best {
                    Some(rec) => list_hit_spec(
                        self.objects@.take(i as int),
                        ray.origin@,
                        ray.direction@,
                        ray_t.min as int,
                        ray_t.max as int,
                    ) == Some(rec.entry()) && rec.wf() && crate::vec3::dot_s(
                        rec.normal@,
                        ray.direction@,
                    ) <= 0 && ray_t.min < rec.t < ray_t.max && closest == rec.t,
                    None => list_hit_spec(
                        self.objects@.take(i as int),
                        ray.origin@,
                        ray.direction@,
                        ray_t.min as int,
                        ray_t.max as int,
                    ) is None && closest == ray_t.max,
                },
            decreases n - i,
        {
            let s = &self.objects[i];
            let window = Interval::new(ray_t.min, closest);
            let res = s.hit(ray, &window);
            proof {
                assert(self.objects@.take(i as int + 1).drop_last() =~= self.objects@.take(
                    i as int,
                ));
                assert(self.objects@.take(i as int + 1).last() == self.objects@[i as int]);
            }
            match res {
                Some(rec) => {
                    closest = rec.t;
                    best = Some(rec);
                },
                None => {},
            }
            i = i + 1;
        }
        proof {
            assert(self.objects@.take(n as int) =~= self.objects@);
        }
        best
    }
}

/// Nearest-hit selection: when two spheres both hit a ray inside a window,
/// the scene yields the hit with the smaller parameter.
pub proof fn lemma_nearest_of_two(s1: Sphere, s2: Sphere, o: V3, d: V3, tmin: int, tmax: int)
    requires
        crate::vec3::lensq_s(d) >= 1,
        sphere_hit_spec(s1.center@, s1.radius as int, s1.mat, o, d, tmin, tmax) is Some,
        sphere_hit_spec(s2.center@, s2.radius as int, s2.mat, o, d, tmin, tmax) is Some,
    ensures
        ({
            let e1 = sphere_hit_spec(s1.center@, s1.radius as int, s1.mat, o, d, tmin, tmax)->Some_0;
            let e2 = sphere_hit_spec(s2.center@, s2.radius as int, s2.mat, o, d, tmin, tmax)->Some_0;
            let res = list_hit_spec(seq![s1, s2], o, d, tmin, tmax);
            res is Some && res->Some_0.0 == if e1.0 <= e2.0 {
                e1.0
            } else {
                e2.0
            }
        }),
{
    let e1 = sphere_hit_spec(s1.center@, s1.radius as int, s1.mat, o, d, tmin, tmax)->Some_0;
    let e2 = sphere_hit_spec(s2.center@, s2.radius as int, s2.mat, o, d, tmin, tmax)->Some_0;
    crate::sphere::lemma_sphere_hit_in_window(
        s1.center@,
        s1.radius as int,
        s1.mat,
        o,
        d,
        tmin,
        tmax,
    );
    crate::sphere::lemma_sphere_hit_in_window(
        s2.center@,
        s2.radius as int,
        s2.mat,
        o,
        d,
        tmin,
        tmax,
    );
    let pair = seq![s1, s2];
    assert(pair.drop_last() =~= seq![s1]);
    assert(pair.last() == s2);
    assert(seq![s1].drop_last() =~= Seq::<Sphere>::empty());
    assert(seq![s1].last() == s1);
    assert(list_hit_spec(Seq::<Sphere>::empty(), o, d, tmin, tmax) is None);
    assert(list_hit_spec(seq![s1], o, d, tmin, tmax) == Some(e1));
    crate::sphere::lemma_sphere_hit_narrow(
        s2.center@,
        s2.radius as int,
        s2.mat,
        o,
        d,
        tmin,
        tmax,
        e1.0,
    );
}


} // verus!
