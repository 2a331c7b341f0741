//! Intersection records and the top-level aggregate of hittable objects.

use vstd::prelude::*;

use crate::aabb::{s_surrounding, Aabb, BoxI};
use crate::bvh::{node_wf, s_bvh_hit, BvhNode};
use crate::material::Material;
use crate::ray::Ray;
use crate::sphere::{s_sphere_box, s_sphere_hit, Sphere};
use crate::vec3::{s_dot, s_neg, Point3, V3i, Vec3};

verus! {

/// Mathematical view of an intersection record.
pub ghost struct HitS {
    pub point: V3i,
    pub normal: V3i,
    pub material: int,
    pub time: int,
    pub front_face: bool,
}

/// One intersection: the point, the normal oriented against the incoming
/// ray, the index of the material in the world's arena, the ray
/// parameter, and which side was struck.
pub struct HitRecord {
    pub point: Point3,
    pub normal: Vec3,
    pub material: usize,
    pub time: i64,
    pub front_face: bool,
}

/// Whether the outward normal faces the incoming ray, and the normal
/// flipped against the ray.
pub open spec fn s_front_face(ray_dir: V3i, outward: V3i) -> bool {
    s_dot(ray_dir, outward) < 0
}

pub open spec fn s_oriented_normal(ray_dir: V3i, outward: V3i) -> V3i {
    if s_front_face(ray_dir, outward) {
        outward
    } else {
        s_neg(outward)
    }
}

pub open spec fn opt_hit_v(o: Option<HitRecord>) -> Option<HitS> {
    match o {
        Option::None => Option::None,
        Option::Some(h) => Option::Some(h.v()),
    }
}

impl HitRecord {
    pub open spec fn v(self) -> HitS {
        HitS {
            point: self.point.v(),
            normal: self.normal.v(),
            material: self.material as int,
            time: self.time as int,
            front_face: self.front_face,
        }
    }

    /// Store `outward_normal` oriented against the ray.
    pub fn set_face_normal(&mut self, ray: &Ray, outward_normal: Vec3)
        ensures
            final(self).front_face == s_front_face(ray.direction_v(), outward_normal.v()),
            final(self).normal.v() == s_oriented_normal(ray.direction_v(), outward_normal.v()),
            final(self).point == old(self).point,
            final(self).material == old(self).material,
            final(self).time == old(self).time,
    {
        self.front_face = ray.direction().dot(&outward_normal) < 0;
        self.normal = if self.front_face {
            outward_normal
        } else {
            outward_normal.neg()
        };
    }
}

/// The linear scan over a sequence of spheres, starting at element `i`
/// with `best` the closest hit seen so far: each object is queried with
/// the interval shrunk to the best time, so the last hit standing is the
/// nearest (ties go to the later object).
pub open spec fn s_scan_from(
    spheres: Seq<Sphere>,
    i: int,
    ray: Ray,
    t_min: int,
    t_max: int,
    best: Option<HitS>,
) -> Option<HitS>
    decreases spheres.len() - i,
{
    if i < 0 || i >= spheres.len() {
        best
    } else {
        let cur_max = match best {
            Option::None => t_max,
            Option::Some(b) => b.time,
        };
        let next = match s_sphere_hit(spheres[i], ray, t_min, cur_max) {
            Option::None => best,
            Option::Some(h) => Option::Some(h),
        };
        s_scan_from(spheres, i + 1, ray, t_min, t_max, next)
    }
}

pub open spec fn s_scan_hit(spheres: Seq<Sphere>, ray: Ray, t_min: int, t_max: int) -> Option<HitS> {
    s_scan_from(spheres, 0, ray, t_min, t_max, Option::None)
}

/// Any hit the scan reports is the record of some sphere of the list
/// (or was the best hit carried in).
pub proof fn lemma_scan_from_source(
    spheres: Seq<Sphere>,
    i: int,
    ray: Ray,
    t_min: int,
    t_max: int,
    best: Option<HitS>,
)
    requires
        best matches Some(b) ==> crate::bvh::s_record_from(spheres, ray, b),
    ensures
        s_scan_from(spheres, i, ray, t_min, t_max, best) matches Some(h)
            ==> crate::bvh::s_record_from(spheres, ray, h),
    decreases spheres.len() - i,
{
    if 0 <= i < spheres.len() {
        let cur_max = match best {
            Option::None => t_max,
            Option::Some(b) => b.time,
        };
        let next = match s_sphere_hit(spheres[i], ray, t_min, cur_max) {
            Option::None => best,
            Option::Some(h) => Option::Some(h),
        };
        if next matches Some(h) && !(best matches Some(b) && h == b) {
            assert(0 <= i < spheres.len());
        }
        lemma_scan_from_source(spheres, i + 1, ray, t_min, t_max, next);
    }
}

/// Any hit the world reports comes from some sphere of the arena, so in
/// a well-formed world its material index is in bounds.
pub proof fn lemma_world_first_hit_source(w: World, ray: Ray, t_min: int, t_max: int)
    requires
        w.wf(),
    ensures
        s_world_first_hit(w, ray, t_min, t_max) matches Some(h) ==> crate::bvh::s_record_from(
            w.spheres@,
            ray,
            h,
        ),
{
    match w.root {
        Option::None => {
            lemma_scan_from_source(w.spheres@, 0, ray, t_min, t_max, Option::None);
        },
        Option::Some(n) => {
            crate::bvh::lemma_bvh_hit_source(n, w.spheres@, ray, t_min, t_max);
        },
    }
}

/// Union of the bounding boxes of a (non-empty) prefix of spheres.
pub open spec fn s_world_box(spheres: Seq<Sphere>) -> BoxI
    recommends
        spheres.len() >= 1,
    decreases spheres.len(),
{
    if spheres.len() <= 1 {
        s_sphere_box(spheres[0])
    } else {
        s_surrounding(s_world_box(spheres.drop_last()), s_sphere_box(spheres.last()))
    }
}

/// The scene: a sphere arena, a material arena indexed by the spheres,
/// and an optional acceleration tree over all spheres.
pub struct World {
    pub spheres: Vec<Sphere>,
    pub materials: Vec<Material>,
    pub root: Option<BvhNode>,
}

/// The first hit the world reports: through the tree when one was
/// built, otherwise by the linear scan.
pub open spec fn s_world_first_hit(w: World, ray: Ray, t_min: int, t_max: int) -> Option<HitS> {
    match w.root {
        Option::None => s_scan_hit(w.spheres@, ray, t_min, t_max),
        Option::Some(n) => s_bvh_hit(n, w.spheres@, ray, t_min, t_max),
    }
}

impl World {
    /// Every sphere names a material in the arena, and the tree, when
    /// present, is well formed over the sphere arena.
    pub open spec fn wf(self) -> bool {
        &&& forall|i: int|
            0 <= i < self.spheres@.len() ==> (self.spheres@[i].material as int)
                < self.materials@.len()
        &&& match self.root {
            Option::None => true,
            Option::Some(n) => node_wf(n, self.spheres@),
        }
    }

    pub fn new() -> (r: World)
        ensures
            r.spheres@.len() == 0,
            r.materials@.len() == 0,
            r.root is None,
            r.wf(),
    {
        World { spheres: Vec::new(), materials: Vec::new(), root: Option::None }
    }

    /// Brute-force nearest hit: scan every sphere, shrinking the far
    /// bound to the closest time seen so far.
    pub fn hit(&self, ray: &Ray, t_min: i64, t_max: i64) -> (r: Option<HitRecord>)
        ensures
            opt_hit_v(r) == s_scan_hit(self.spheres@, *ray, t_min as int, t_max as int),
    {
        let ghost full = s_scan_hit(self.spheres@, *ray, t_min as int, t_max as int);
        let mut tmp_record: Option<HitRecord> = Option::None;
        let mut closest_so_far = t_max;
        let n = self.spheres.len();
        let mut i: usize = 0;
        while i < n
            invariant
                n == self.spheres@.len(),
                0 <= i <= n,
                match tmp_record {
                    Option::None => closest_so_far == t_max,
                    Option::Some(h) => h.time == closest_so_far,
                },
                s_scan_from(
                    self.spheres@,
                    i as int,
                    *ray,
                    t_min as int,
                    t_max as int,
                    opt_hit_v(tmp_record),
                ) == full,
            decreases n - i,
        {
            if let Option::Some(record) = self.spheres[i].hit(ray, t_min, closest_so_far) {
                closest_so_far = record.time;
                tmp_record = Option::Some(record);
            }
            i = i + 1;
        }
        tmp_record
    }

    /// The first hit for the integrator: through the tree when one was
    /// built, otherwise by the linear scan.
    pub fn first_hit(&self, ray: &Ray, t_min: i64, t_max: i64) -> (r: Option<HitRecord>)
        requires
            self.wf(),
        ensures
            opt_hit_v(r) == s_world_first_hit(*self, *ray, t_min as int, t_max as int),
    {
        match &self.root {
            Option::Some(n) => n.hit(&self.spheres, ray, t_min, t_max),
            Option::None => self.hit(ray, t_min, t_max),
        }
    }

    /// Union of all member boxes, or nothing for an empty list.
    pub fn bounding_box(&self) -> (r: Option<Aabb>)
        ensures
            match r {
                Option::None => self.spheres@.len() == 0,
                Option::Some(b) => self.spheres@.len() > 0 && b.bx() == s_world_box(self.spheres@),
            },
    {
        let n = self.spheres.len();
        if n == 0 {
            return Option::None;
        }
        let mut box_first = self.spheres[0].bounding_box().unwrap();
        let mut i: usize = 1;
        while i < n
            invariant
                n == self.spheres@.len(),
                1 <= i <= n,
                box_first.bx() == s_world_box(self.spheres@.subrange(0, i as int)),
            decreases n - i,
        {
            let box_object = self.spheres[i].bounding_box().unwrap();
            box_first = Aabb::surrounding_box(box_first, box_object).unwrap();
            proof {
                assert(self.spheres@.subrange(0, i + 1 as int).drop_last() == self.spheres@.subrange(
                    0,
                    i as int,
                ));
            }
            i = i + 1;
        }
        proof {
            assert(self.spheres@.subrange(0, n as int) == self.spheres@);
        }
        Option::Some(box_first)
    }
}

} // verus!
