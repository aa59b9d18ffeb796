//! The scene aggregate: an ordered list of primitives, itself intersectable,
//! with nearest-hit semantics independent of list order.

use crate::hittable::{
    hittable_hit_s, hittable_wf, lemma_hittable_rec_props, HitRecord, HitView, Hittable,
};
use crate::ray::Ray;
use crate::sphere::scene_ray_ok;
use crate::vec3::quad_ok;
use vstd::prelude::*;

verus! {

/// An ordered collection of scene primitives.
pub struct HittableList {
    pub objects: Vec<Hittable>,
}

/// Every primitive of the scene is well-formed.
pub open spec fn list_wf(objs: Seq<Hittable>) -> bool {
    forall|i: int| 0 <= i < objs.len() ==> hittable_wf(#[trigger] objs[i])
}

/// What scanning the first `n` objects reports: each object is tested
/// against a window narrowed to the nearest hit found so far, so the result
/// is the record of the nearest hit among them.
pub open spec fn list_hit_s(objs: Seq<Hittable>, ray: Ray, t_min: int, t_max: int, n: int) -> Option<
    HitView,
>
    decreases n,
{
    if n <= 0 {
        None
    } else {
        let prev = list_hit_s(objs, ray, t_min, t_max, n - 1);
        let cur_max = match prev {
            Some(h) => h.t,
            None => t_max,
        };
        match hittable_hit_s(objs[n - 1], ray, t_min, cur_max) {
            Some(h) => Some(h),
            None => prev,
        }
    }
}

/// A scan of a well-formed scene reports a well-formed material, a normal
/// the scattering arithmetic accepts, and a parameter inside the window.
pub proof fn lemma_list_hit_props(objs: Seq<Hittable>, ray: Ray, t_min: int, t_max: int, n: int)
    requires
        list_wf(objs),
        n <= objs.len(),
        t_min <= t_max,
    ensures
        match list_hit_s(objs, ray, t_min, t_max, n) {
            Some(h) => (h.mat_ptr matches Some(m) ==> crate::material::material_wf(m)) && quad_ok(
                h.normal,
            ) && t_min <= h.t <= t_max,
            None => true,
        },
    decreases n,
{
    if n > 0 {
        lemma_list_hit_props(objs, ray, t_min, t_max, n - 1);
        let prev = list_hit_s(objs, ray, t_min, t_max, n - 1);
        let cur_max = match prev {
            Some(h) => h.t,
            None => t_max,
        };
        lemma_hittable_rec_props(objs[n - 1], ray, t_min, cur_max);
    }
}

impl HittableList {
    /// Whether every primitive of the scene is in the ranges the rendering
    /// arithmetic is defined for.
    pub fn is_well_formed(&self) -> (b: bool)
        ensures
            b == list_wf(self.objects@),
    {
        let n: usize = self.objects.len();
        let mut i: usize = 0;
        while i < n
            invariant
                i <= n,
                n == self.objects@.len(),
                forall|k: int| 0 <= k < i ==> hittable_wf(#[trigger] self.objects@[k]),
            decreases n - i,
        {
            if !self.objects[i].is_well_formed() {
                return false;
            }
            i = i + 1;
        }
        true
    }

    /// An empty scene.
    pub fn new() -> (r: HittableList)
        ensures
            r.objects@ == Seq::<Hittable>::empty(),
    {
        HittableList { objects: Vec::new() }
    }

    /// Remove every primitive.
    pub fn clear(&mut self)
        ensures
            final(self).objects@ == Seq::<Hittable>::empty(),
    {
        self.objects.clear();
    }

    /// Append a primitive.
    pub fn add(&mut self, object: Hittable)
        ensures
            final(self).objects@ == old(self).objects@.push(object),
    {
        self.objects.push(object);
    }

    /// Intersect `ray` with every primitive and keep the nearest hit with
    /// parameter in `[t_min, t_max]`; later objects cannot displace a nearer
    /// hit because the window is narrowed as hits are found.
    pub fn hit(&self, ray: &Ray, t_min: i64, t_max: i64, rec: &mut HitRecord) -> (b: bool)
        requires
            list_wf(self.objects@),
            scene_ray_ok(*ray),
            0 < t_min <= t_max <= 0x4_0000_0000,
        ensures
            b == (list_hit_s(
                self.objects@,
                *ray,
                t_min as int,
                t_max as int,
                self.objects@.len() as int,
            ) is Some),
            b ==> Some(final(rec)@) == list_hit_s(
                self.objects@,
                *ray,
                t_min as int,
                t_max as int,
                self.objects@.len() as int,
            ),
            !b ==> *final(rec) == *old(rec),
    {
        let ghost objs = self.objects@;
        let mut temp_rec: HitRecord = HitRecord::new();
        let mut hit_anything: bool = false;
        let mut closest_so_far: i64 = t_max;
        let n: usize = self.objects.len();

        let mut i: usize = 0;
        while i < n
            invariant
                n == objs.len(),
                objs == self.objects@,
                0 <= i <= n,
                list_wf(objs),
                scene_ray_ok(*ray),
                0 < t_min <= closest_so_far <= t_max <= 0x4_0000_0000,
                hit_anything == (list_hit_s(objs, *ray, t_min as int, t_max as int, i as int)
                    is Some),
                hit_anything ==> Some((*rec)@) == list_hit_s(
                    objs,
                    *ray,
                    t_min as int,
                    t_max as int,
                    i as int,
                ) && closest_so_far == rec.t,
                !hit_anything ==> closest_so_far == t_max && *rec == *old(rec),
            decreases n - i,
        {
            let obj: &Hittable = &self.objects[i];
            if obj.hit(ray, t_min, closest_so_far, &mut temp_rec) {
                hit_anything = true;
                closest_so_far = temp_rec.t;
                *rec = temp_rec;
            }
            i = i + 1;
        }

        hit_anything
    }
}

} // verus!
