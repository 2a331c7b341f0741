//! The sphere primitive and its ray intersection.

use vstd::prelude::*;

use crate::aabb::{Aabb, BoxI};
use crate::fixed::{
    fx_add, fx_add_v, fx_div, fx_div_v, fx_mul, fx_mul_v, fx_neg, fx_neg_v, fx_sqrt, fx_sqrt_v,
    fx_sub, fx_sub_v,
};
use crate::hit::{opt_hit_v, s_front_face, s_oriented_normal, HitRecord, HitS};
use crate::ray::{s_ray_at, Ray};
use crate::vec3::{s_add, s_dot, s_sub, Point3, V3i, Vec3};

verus! {

/// A sphere owning its centre and radius and naming its material by
/// index into the world's material arena.
pub struct Sphere {
    pub center: Point3,
    pub radius: i64,
    pub material: usize,
}

/// Coefficients of the intersection quadratic `a t^2 + 2 b t + c = 0`:
/// `a = |d|^2`, `b = (o - c) . d`, `c = |o - c|^2 - r^2`.
pub open spec fn s_quad_a(s: Sphere, r: Ray) -> int {
    s_dot(r.direction_v(), r.direction_v())
}

pub open spec fn s_oc(s: Sphere, r: Ray) -> V3i {
    s_sub(r.origin_v(), s.center.v())
}

pub open spec fn s_quad_b(s: Sphere, r: Ray) -> int {
    s_dot(s_oc(s, r), r.direction_v())
}

pub open spec fn s_quad_c(s: Sphere, r: Ray) -> int {
    fx_sub_v(s_dot(s_oc(s, r), s_oc(s, r)), fx_mul_v(s.radius as int, s.radius as int))
}

pub open spec fn s_discriminant(s: Sphere, r: Ray) -> int {
    fx_sub_v(
        fx_mul_v(s_quad_b(s, r), s_quad_b(s, r)),
        fx_mul_v(s_quad_a(s, r), s_quad_c(s, r)),
    )
}

/// The nearer root `(-b - sqrt(disc)) / a`.
pub open spec fn s_root_near(s: Sphere, r: Ray) -> int {
    fx_div_v(
        fx_sub_v(fx_neg_v(s_quad_b(s, r)), fx_sqrt_v(s_discriminant(s, r))),
        s_quad_a(s, r),
    )
}

/// The farther root `(-b + sqrt(disc)) / a`.
pub open spec fn s_root_far(s: Sphere, r: Ray) -> int {
    fx_add_v(fx_neg_v(s_quad_b(s, r)), fx_sqrt_v(s_discriminant(s, r)))
}

pub open spec fn s_root_far_div(s: Sphere, r: Ray) -> int {
    fx_div_v(s_root_far(s, r), s_quad_a(s, r))
}

/// The accepted hit time: no hit when the discriminant is negative;
/// otherwise the nearer root if it lies within `[t_min, t_max]`, else
/// the farther root if it does, else no hit.
pub open spec fn s_sphere_hit_time(s: Sphere, r: Ray, t_min: int, t_max: int) -> Option<int> {
    if s_discriminant(s, r) < 0 {
        Option::None
    } else if t_min <= s_root_near(s, r) && s_root_near(s, r) <= t_max {
        Option::Some(s_root_near(s, r))
    } else if t_min <= s_root_far_div(s, r) && s_root_far_div(s, r) <= t_max {
        Option::Some(s_root_far_div(s, r))
    } else {
        Option::None
    }
}

/// The outward normal at the hit point: `(p - centre) / radius`.
pub open spec fn s_outward_normal(s: Sphere, r: Ray, t: int) -> V3i {
    let p = s_ray_at(r, t);
    V3i {
        x: fx_div_v(fx_sub_v(p.x, s.center.v().x), s.radius as int),
        y: fx_div_v(fx_sub_v(p.y, s.center.v().y), s.radius as int),
        z: fx_div_v(fx_sub_v(p.z, s.center.v().z), s.radius as int),
    }
}

/// The full record produced for a hit at time `t`.
pub open spec fn s_sphere_record(s: Sphere, r: Ray, t: int) -> HitS {
    HitS {
        point: s_ray_at(r, t),
        normal: s_oriented_normal(r.direction_v(), s_outward_normal(s, r, t)),
        material: s.material as int,
        time: t,
        front_face: s_front_face(r.direction_v(), s_outward_normal(s, r, t)),
    }
}

pub open spec fn s_sphere_hit(s: Sphere, r: Ray, t_min: int, t_max: int) -> Option<HitS> {
    match s_sphere_hit_time(s, r, t_min, t_max) {
        Option::None => Option::None,
        Option::Some(t) => Option::Some(s_sphere_record(s, r, t)),
    }
}

/// The box `centre - (r,r,r) .. centre + (r,r,r)`.
pub open spec fn s_sphere_box(s: Sphere) -> BoxI {
    BoxI {
        min: s_sub(s.center.v(), V3i { x: s.radius as int, y: s.radius as int, z: s.radius as int }),
        max: s_add(s.center.v(), V3i { x: s.radius as int, y: s.radius as int, z: s.radius as int }),
    }
}

/// The nearer root never exceeds the farther root: the quadratic's
/// leading coefficient is a squared length, hence nonnegative, and
/// scalar division by it is monotone.
pub proof fn lemma_roots_ordered(s: Sphere, r: Ray)
    ensures
        s_root_near(s, r) <= s_root_far_div(s, r),
{
    crate::vec3::lemma_dot_self_nonneg(r.direction_v());
    crate::fixed::lemma_fx_sqrt_v_nonneg(s_discriminant(s, r));
    crate::fixed::lemma_fx_div_v_monotone(
        fx_sub_v(fx_neg_v(s_quad_b(s, r)), fx_sqrt_v(s_discriminant(s, r))),
        s_root_far(s, r),
        s_quad_a(s, r),
    );
}

/// A hit time survives shrinking the far bound down to it.
pub proof fn lemma_hit_time_shrink(s: Sphere, r: Ray, t_min: int, t1: int, t2: int, t: int)
    requires
        s_sphere_hit_time(s, r, t_min, t2) == Option::Some(t),
        t <= t1 <= t2,
    ensures
        s_sphere_hit_time(s, r, t_min, t1) == Option::Some(t),
{
}

/// A hit time survives widening the far bound: with the roots ordered,
/// the nearer root cannot newly enter the interval.
pub proof fn lemma_hit_time_widen(s: Sphere, r: Ray, t_min: int, t1: int, t2: int, t: int)
    requires
        s_sphere_hit_time(s, r, t_min, t1) == Option::Some(t),
        t1 <= t2,
    ensures
        s_sphere_hit_time(s, r, t_min, t2) == Option::Some(t),
{
    lemma_roots_ordered(s, r);
}

impl Sphere {
    pub fn new(center: Point3, radius: i64, material: usize) -> (r: Sphere)
        requires
            radius > 0,
        ensures
            r.center == center,
            r.radius == radius,
            r.material == material,
    {
        Sphere { center, radius, material }
    }

    pub fn hit(&self, ray: &Ray, t_min: i64, t_max: i64) -> (r: Option<HitRecord>)
        ensures
            opt_hit_v(r) == s_sphere_hit(*self, *ray, t_min as int, t_max as int),
    {
        let dir = ray.direction();
        let oc = ray.origin().sub(&self.center);
        let a = dir.dot(&dir);
        let b = oc.dot(&dir);
        let c = fx_sub(oc.dot(&oc), fx_mul(self.radius, self.radius));

        let discriminant = fx_sub(fx_mul(b, b), fx_mul(a, c));
        if discriminant < 0 {
            return Option::None;
        }

        let sqrtd = fx_sqrt(discriminant);
        let mut root = fx_div(fx_sub(fx_neg(b), sqrtd), a);
        if root < t_min || t_max < root {
            root = fx_div(fx_add(fx_neg(b), sqrtd), a);
            if root < t_min || t_max < root {
                return Option::None;
            }
        }

        let point = ray.at(root);
        let outward_normal = Vec3::new(
            fx_div(fx_sub(point.x, self.center.x), self.radius),
            fx_div(fx_sub(point.y, self.center.y), self.radius),
            fx_div(fx_sub(point.z, self.center.z), self.radius),
        );
        let mut record = HitRecord {
            time: root,
            point,
            material: self.material,
            normal: outward_normal,
            front_face: false,
        };
        record.set_face_normal(ray, outward_normal);
        Option::Some(record)
    }

    pub fn bounding_box(&self) -> (r: Option<Aabb>)
        ensures
            r matches Some(b) && b.bx() == s_sphere_box(*self),
    {
        let rvec = Vec3::new(self.radius, self.radius, self.radius);
        Option::Some(Aabb::new(self.center.sub(&rvec), self.center.add(&rvec)))
    }
}

} // verus!
