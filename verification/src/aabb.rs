//! Axis-aligned bounding boxes: slab-test intersection, union, and
//! surface area for the split heuristic.

use vstd::prelude::*;

use crate::fixed::{
    fx_max, fx_max_v, fx_min, fx_min_v, fx_mul, fx_mul_v, fx_sub, fx_sub_v, FX_TWO,
};
use crate::ray::Ray;
use crate::vec3::{Point3, V3i, Vec3};

verus! {

/// Mathematical view of a box: two corner views.
pub ghost struct BoxI {
    pub min: V3i,
    pub max: V3i,
}

#[derive(Clone, Copy, PartialEq, Eq, Structural, Debug)]
pub struct Aabb {
    pub min: Point3,
    pub max: Point3,
}

/// A box is well formed when `min <= max` on every axis.
pub open spec fn s_box_wf(b: BoxI) -> bool {
    b.min.x <= b.max.x && b.min.y <= b.max.y && b.min.z <= b.max.z
}

/// `outer` contains `inner` on every axis.
pub open spec fn s_box_contains(outer: BoxI, inner: BoxI) -> bool {
    outer.min.x <= inner.min.x && outer.min.y <= inner.min.y && outer.min.z <= inner.min.z
        && inner.max.x <= outer.max.x && inner.max.y <= outer.max.y && inner.max.z <= outer.max.z
}

/// Componentwise min of mins and max of maxes. Exact: no rounding is
/// involved, so the union is associative and commutative.
pub open spec fn s_surrounding(a: BoxI, b: BoxI) -> BoxI {
    BoxI {
        min: V3i {
            x: fx_min_v(a.min.x, b.min.x),
            y: fx_min_v(a.min.y, b.min.y),
            z: fx_min_v(a.min.z, b.min.z),
        },
        max: V3i {
            x: fx_max_v(a.max.x, b.max.x),
            y: fx_max_v(a.max.y, b.max.y),
            z: fx_max_v(a.max.z, b.max.z),
        },
    }
}

pub open spec fn s_origin_inside(b: BoxI, o: V3i) -> bool {
    b.min.x <= o.x <= b.max.x && b.min.y <= o.y <= b.max.y && b.min.z <= o.z <= b.max.z
}

/// One slab: entry/exit times along an axis, intersected with the
/// running interval.
pub open spec fn s_slab_axis(bmin: int, bmax: int, o: int, inv: int, tmin: int, tmax: int) -> (
    int,
    int,
) {
    let t0 = fx_mul_v(fx_sub_v(bmin, o), inv);
    let t1 = fx_mul_v(fx_sub_v(bmax, o), inv);
    let t_near = fx_min_v(t0, t1);
    let t_far = fx_max_v(t0, t1);
    (fx_max_v(tmin, t_near), fx_min_v(tmax, t_far))
}

/// The slab test: accept immediately when the origin lies inside the
/// box, otherwise shrink `[tmin, tmax]` axis by axis and reject as soon
/// as the interval is empty.
pub open spec fn s_aabb_hit(b: BoxI, o: V3i, inv: V3i, tmin: int, tmax: int) -> bool {
    if s_origin_inside(b, o) {
        true
    } else {
        let (n0, f0) = s_slab_axis(b.min.x, b.max.x, o.x, inv.x, tmin, tmax);
        if f0 <= n0 {
            false
        } else {
            let (n1, f1) = s_slab_axis(b.min.y, b.max.y, o.y, inv.y, n0, f0);
            if f1 <= n1 {
                false
            } else {
                let (n2, f2) = s_slab_axis(b.min.z, b.max.z, o.z, inv.z, n1, f1);
                !(f2 <= n2)
            }
        }
    }
}

/// Surface area `2 (x y + x z + y z)` of the box extents
/// `x, y, z = max - min` per axis.
pub open spec fn s_surface_area(b: BoxI) -> int {
    let x = fx_sub_v(b.max.x, b.min.x);
    let y = fx_sub_v(b.max.y, b.min.y);
    let z = fx_sub_v(b.max.z, b.min.z);
    fx_mul_v(FX_TWO as int, fx_add_v3(fx_mul_v(x, y), fx_mul_v(x, z), fx_mul_v(y, z)))
}

pub open spec fn fx_add_v3(a: int, b: int, c: int) -> int {
    crate::fixed::fx_add_v(crate::fixed::fx_add_v(a, b), c)
}

impl Aabb {
    pub open spec fn bx(self) -> BoxI {
        BoxI { min: self.min.v(), max: self.max.v() }
    }

    pub fn new(min: Point3, max: Point3) -> (r: Aabb)
        ensures
            r.min == min,
            r.max == max,
    {
        Aabb { min, max }
    }

    pub fn min(&self) -> (r: Vec3)
        ensures
            r == self.min,
            r.v() == self.bx().min,
    {
        self.min
    }

    pub fn max(&self) -> (r: Vec3)
        ensures
            r == self.max,
            r.v() == self.bx().max,
    {
        self.max
    }

    pub fn hit(&self, ray: &Ray, t_min: i64, t_max: i64) -> (r: bool)
        ensures
            r == s_aabb_hit(
                self.bx(),
                ray.origin_v(),
                ray.inv_direction_v(),
                t_min as int,
                t_max as int,
            ),
    {
        let o = ray.origin();
        if self.min.x <= o.x && o.x <= self.max.x && self.min.y <= o.y && o.y <= self.max.y
            && self.min.z <= o.z && o.z <= self.max.z {
            return true;
        }
        let inv = ray.inv_direction();
        let (n0, f0) = Self::slab_axis(self.min.x, self.max.x, o.x, inv.x, t_min, t_max);
        if f0 <= n0 {
            return false;
        }
        let (n1, f1) = Self::slab_axis(self.min.y, self.max.y, o.y, inv.y, n0, f0);
        if f1 <= n1 {
            return false;
        }
        let (n2, f2) = Self::slab_axis(self.min.z, self.max.z, o.z, inv.z, n1, f1);
        !(f2 <= n2)
    }

    fn slab_axis(bmin: i64, bmax: i64, o: i64, inv: i64, tmin: i64, tmax: i64) -> (r: (i64, i64))
        ensures
            (r.0 as int, r.1 as int) == s_slab_axis(
                bmin as int,
                bmax as int,
                o as int,
                inv as int,
                tmin as int,
                tmax as int,
            ),
    {
        let t0 = fx_mul(fx_sub(bmin, o), inv);
        let t1 = fx_mul(fx_sub(bmax, o), inv);
        let t_near = fx_min(t0, t1);
        let t_far = fx_max(t0, t1);
        (fx_max(tmin, t_near), fx_min(tmax, t_far))
    }

    pub fn surrounding_box(box0: Aabb, box1: Aabb) -> (r: Option<Aabb>)
        ensures
            r matches Some(b) && b.bx() == s_surrounding(box0.bx(), box1.bx()),
    {
        let small = Vec3::new(
            fx_min(box0.min.x, box1.min.x),
            fx_min(box0.min.y, box1.min.y),
            fx_min(box0.min.z, box1.min.z),
        );
        let big = Vec3::new(
            fx_max(box0.max.x, box1.max.x),
            fx_max(box0.max.y, box1.max.y),
            fx_max(box0.max.z, box1.max.z),
        );
        Some(Aabb::new(small, big))
    }

    pub fn surface_area(&self) -> (r: i64)
        ensures
            r as int == s_surface_area(self.bx()),
    {
        let x = fx_sub(self.max.x, self.min.x);
        let y = fx_sub(self.max.y, self.min.y);
        let z = fx_sub(self.max.z, self.min.z);
        fx_mul(
            FX_TWO,
            crate::fixed::fx_add(
                crate::fixed::fx_add(fx_mul(x, y), fx_mul(x, z)),
                fx_mul(y, z),
            ),
        )
    }
}

/// The union of two boxes contains both of them on every axis.
pub proof fn lemma_surrounding_contains(a: BoxI, b: BoxI)
    ensures
        s_box_contains(s_surrounding(a, b), a),
        s_box_contains(s_surrounding(a, b), b),
{
}

/// The box union is commutative.
pub proof fn lemma_surrounding_commutative(a: BoxI, b: BoxI)
    ensures
        s_surrounding(a, b) == s_surrounding(b, a),
{
}

/// The box union is associative, so a hierarchical union of boxes equals
/// the direct union of all of them, in any grouping.
pub proof fn lemma_surrounding_associative(a: BoxI, b: BoxI, c: BoxI)
    ensures
        s_surrounding(a, s_surrounding(b, c)) == s_surrounding(s_surrounding(a, b), c),
{
}

} // verus!
