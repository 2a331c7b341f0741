//! Rays with precomputed inverse directions.

use vstd::prelude::*;

use crate::vec3::{s_add, s_invert, s_scale, Point3, V3i, Vec3};

verus! {

#[derive(Clone, Copy, PartialEq, Eq, Structural, Debug)]
pub struct Ray {
    pub origin: Point3,
    pub direction: Vec3,
    pub inv_direction: Vec3,
}

/// The point `origin + t * direction`.
pub open spec fn s_ray_at(r: Ray, t: int) -> V3i {
    s_add(r.origin_v(), s_scale(r.direction_v(), t))
}

impl Ray {
    pub open spec fn origin_v(self) -> V3i {
        self.origin.v()
    }

    pub open spec fn direction_v(self) -> V3i {
        self.direction.v()
    }

    pub open spec fn inv_direction_v(self) -> V3i {
        self.inv_direction.v()
    }

    /// A ray is well formed when its cached inverse direction is the
    /// componentwise reciprocal of its direction.
    pub open spec fn wf(self) -> bool {
        self.inv_direction_v() == s_invert(self.direction_v())
    }

    pub fn new(origin: Point3, direction: Vec3) -> (r: Ray)
        ensures
            r.origin == origin,
            r.direction == direction,
            r.wf(),
    {
        Ray { origin, direction, inv_direction: direction.invert() }
    }

    pub fn origin(&self) -> (r: Point3)
        ensures
            r == self.origin,
    {
        self.origin
    }

    pub fn direction(&self) -> (r: Vec3)
        ensures
            r == self.direction,
    {
        self.direction
    }

    pub fn inv_direction(&self) -> (r: Vec3)
        ensures
            r == self.inv_direction,
    {
        self.inv_direction
    }

    pub fn at(&self, t: i64) -> (r: Point3)
        ensures
            r.v() == s_ray_at(*self, t as int),
    {
        self.origin.add(&self.direction.scale(t))
    }
}

} // verus!
