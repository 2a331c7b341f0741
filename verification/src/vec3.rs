//! Three-component vectors of fixed-point scalars.
//!
//! `V3i` is the mathematical view of a vector: its three raw coordinates
//! as unbounded integers. Every executable operation returns exactly the
//! vector given by its spec-level counterpart over the views.

use vstd::prelude::*;

use crate::fixed::{
    fx_abs, fx_abs_v, fx_add, fx_add_v, fx_div, fx_div_v, fx_min, fx_min_v, fx_mul, fx_mul_v,
    fx_neg, fx_neg_v, fx_sqrt, fx_sqrt_v, fx_sub, fx_sub_v, FX_ONE, FX_TWO,
};

verus! {

/// Near-zero threshold on each coordinate (about 1.2e-4).
pub const NEAR_ZERO_EPS: i64 = 8;

/// Mathematical view of a vector: unbounded integer coordinates.
pub ghost struct V3i {
    pub x: int,
    pub y: int,
    pub z: int,
}

#[derive(Clone, Copy, PartialEq, Eq, Structural, Debug)]
pub struct Vec3 {
    pub x: i64,
    pub y: i64,
    pub z: i64,
}

/// A point in space; same representation as a vector.
pub type Point3 = Vec3;

/// A linear color; components nominally in `[0, FX_ONE]`.
pub type Color = Vec3;

pub open spec fn s_axis(a: V3i, i: int) -> int {
    if i == 0 {
        a.x
    } else if i == 1 {
        a.y
    } else {
        a.z
    }
}

pub open spec fn s_add(a: V3i, b: V3i) -> V3i {
    V3i { x: fx_add_v(a.x, b.x), y: fx_add_v(a.y, b.y), z: fx_add_v(a.z, b.z) }
}

pub open spec fn s_sub(a: V3i, b: V3i) -> V3i {
    V3i { x: fx_sub_v(a.x, b.x), y: fx_sub_v(a.y, b.y), z: fx_sub_v(a.z, b.z) }
}

pub open spec fn s_neg(a: V3i) -> V3i {
    V3i { x: fx_neg_v(a.x), y: fx_neg_v(a.y), z: fx_neg_v(a.z) }
}

pub open spec fn s_scale(a: V3i, t: int) -> V3i {
    V3i { x: fx_mul_v(a.x, t), y: fx_mul_v(a.y, t), z: fx_mul_v(a.z, t) }
}

/// Componentwise product, as used for color attenuation.
pub open spec fn s_cmul(a: V3i, b: V3i) -> V3i {
    V3i { x: fx_mul_v(a.x, b.x), y: fx_mul_v(a.y, b.y), z: fx_mul_v(a.z, b.z) }
}

pub open spec fn s_dot(a: V3i, b: V3i) -> int {
    fx_add_v(fx_add_v(fx_mul_v(a.x, b.x), fx_mul_v(a.y, b.y)), fx_mul_v(a.z, b.z))
}

pub open spec fn s_len(a: V3i) -> int {
    fx_sqrt_v(s_dot(a, a))
}

pub open spec fn s_normalized(a: V3i) -> V3i {
    V3i {
        x: fx_div_v(a.x, s_len(a)),
        y: fx_div_v(a.y, s_len(a)),
        z: fx_div_v(a.z, s_len(a)),
    }
}

pub open spec fn s_invert(a: V3i) -> V3i {
    V3i {
        x: fx_div_v(FX_ONE as int, a.x),
        y: fx_div_v(FX_ONE as int, a.y),
        z: fx_div_v(FX_ONE as int, a.z),
    }
}

pub open spec fn s_near_zero(a: V3i) -> bool {
    fx_abs_v(a.x) < NEAR_ZERO_EPS && fx_abs_v(a.y) < NEAR_ZERO_EPS && fx_abs_v(a.z)
        < NEAR_ZERO_EPS
}

/// `v` mirrored about the plane with normal `n`: `v - 2 (v . n) n`.
pub open spec fn s_reflect(v: V3i, n: V3i) -> V3i {
    s_sub(v, s_scale(n, fx_mul_v(FX_TWO as int, s_dot(v, n))))
}

/// Snell refraction of unit direction `uv` at normal `n` with index
/// ratio `ratio`, in vector form.
pub open spec fn s_refract(uv: V3i, n: V3i, ratio: int) -> V3i {
    let cos_theta = fx_min_v(s_dot(s_neg(uv), n), FX_ONE as int);
    let r_out_perp = s_scale(s_add(uv, s_scale(n, cos_theta)), ratio);
    let r_out_parallel = s_scale(
        n,
        fx_neg_v(fx_sqrt_v(fx_abs_v(fx_sub_v(FX_ONE as int, s_dot(r_out_perp, r_out_perp))))),
    );
    s_add(r_out_perp, r_out_parallel)
}

/// A square is a nonnegative scalar.
pub proof fn lemma_fx_square_nonneg(x: int)
    ensures
        fx_mul_v(x, x) >= 0,
{
    assert(x * x >= 0) by (nonlinear_arith);
    if x * x > 0 {
        vstd::arithmetic::div_mod::lemma_div_pos_is_pos(x * x, FX_ONE as int);
    }
}

/// The dot product of a vector with itself is nonnegative.
pub proof fn lemma_dot_self_nonneg(a: V3i)
    ensures
        s_dot(a, a) >= 0,
{
    lemma_fx_square_nonneg(a.x);
    lemma_fx_square_nonneg(a.y);
    lemma_fx_square_nonneg(a.z);
}

/// The inputs on which refraction at index ratio 1 is exact: each
/// coordinate of `uv` is in range, no perpendicular coordinate
/// saturates, and the rounded square root of `1 - |perp|^2` recovers the
/// incident cosine.
pub open spec fn refract_identity_exact(uv: V3i, n: V3i) -> bool {
    let cos = fx_min_v(s_dot(s_neg(uv), n), crate::fixed::FX_ONE as int);
    let perp = s_add(uv, s_scale(n, cos));
    &&& fx_sqrt_v(fx_abs_v(fx_sub_v(crate::fixed::FX_ONE as int, s_dot(perp, perp)))) == cos
    &&& crate::fixed::FX_MIN as int <= uv.x <= crate::fixed::FX_MAX as int
    &&& crate::fixed::FX_MIN as int <= uv.y <= crate::fixed::FX_MAX as int
    &&& crate::fixed::FX_MIN as int <= uv.z <= crate::fixed::FX_MAX as int
    &&& crate::fixed::FX_MIN as int <= uv.x + fx_mul_v(n.x, cos) <= crate::fixed::FX_MAX as int
    &&& crate::fixed::FX_MIN as int <= uv.y + fx_mul_v(n.y, cos) <= crate::fixed::FX_MAX as int
    &&& crate::fixed::FX_MIN as int <= uv.z + fx_mul_v(n.z, cos) <= crate::fixed::FX_MAX as int
}

/// Refraction with index ratio 1 bends nothing on exact inputs: the
/// perpendicular part carries `uv + cos n` and the parallel part takes
/// `cos n` back off, coordinate by coordinate.
pub proof fn lemma_refract_ratio_one_identity(uv: V3i, n: V3i)
    requires
        refract_identity_exact(uv, n),
    ensures
        s_refract(uv, n, crate::fixed::FX_ONE as int) == uv,
{
    let one = crate::fixed::FX_ONE as int;
    let cos = fx_min_v(s_dot(s_neg(uv), n), one);
    let m = s_scale(n, cos);
    let perp0 = s_add(uv, m);
    crate::fixed::lemma_fx_mul_one(perp0.x);
    crate::fixed::lemma_fx_mul_one(perp0.y);
    crate::fixed::lemma_fx_mul_one(perp0.z);
    let perp = s_scale(perp0, one);
    assert(perp == perp0);
    let s = fx_neg_v(fx_sqrt_v(fx_abs_v(fx_sub_v(one, s_dot(perp, perp)))));
    assert(s == fx_neg_v(cos));
    crate::fixed::lemma_fx_mul_neg_right(n.x, cos);
    crate::fixed::lemma_fx_mul_neg_right(n.y, cos);
    crate::fixed::lemma_fx_mul_neg_right(n.z, cos);
    assert(fx_mul_v(n.x, s) == -m.x);
    assert(fx_mul_v(n.y, s) == -m.y);
    assert(fx_mul_v(n.z, s) == -m.z);
    assert(s_refract(uv, n, one).x == uv.x);
    assert(s_refract(uv, n, one).y == uv.y);
    assert(s_refract(uv, n, one).z == uv.z);
}

impl Vec3 {
    /// The coordinates as unbounded integers.
    pub open spec fn v(self) -> V3i {
        V3i { x: self.x as int, y: self.y as int, z: self.z as int }
    }

    pub fn new(x: i64, y: i64, z: i64) -> (r: Vec3)
        ensures
            r == (Vec3 { x, y, z }),
    {
        Vec3 { x, y, z }
    }

    pub fn axis(&self, i: usize) -> (r: i64)
        requires
            i < 3,
        ensures
            r as int == s_axis(self.v(), i as int),
    {
        if i == 0 {
            self.x
        } else if i == 1 {
            self.y
        } else {
            self.z
        }
    }

    pub fn add(&self, o: &Vec3) -> (r: Vec3)
        ensures
            r.v() == s_add(self.v(), o.v()),
    {
        Vec3 { x: fx_add(self.x, o.x), y: fx_add(self.y, o.y), z: fx_add(self.z, o.z) }
    }

    pub fn sub(&self, o: &Vec3) -> (r: Vec3)
        ensures
            r.v() == s_sub(self.v(), o.v()),
    {
        Vec3 { x: fx_sub(self.x, o.x), y: fx_sub(self.y, o.y), z: fx_sub(self.z, o.z) }
    }

    pub fn neg(&self) -> (r: Vec3)
        ensures
            r.v() == s_neg(self.v()),
    {
        Vec3 { x: fx_neg(self.x), y: fx_neg(self.y), z: fx_neg(self.z) }
    }

    pub fn scale(&self, t: i64) -> (r: Vec3)
        ensures
            r.v() == s_scale(self.v(), t as int),
    {
        Vec3 { x: fx_mul(self.x, t), y: fx_mul(self.y, t), z: fx_mul(self.z, t) }
    }

    pub fn cmul(&self, o: &Vec3) -> (r: Vec3)
        ensures
            r.v() == s_cmul(self.v(), o.v()),
    {
        Vec3 { x: fx_mul(self.x, o.x), y: fx_mul(self.y, o.y), z: fx_mul(self.z, o.z) }
    }

    pub fn dot(&self, o: &Vec3) -> (r: i64)
        ensures
            r as int == s_dot(self.v(), o.v()),
    {
        fx_add(fx_add(fx_mul(self.x, o.x), fx_mul(self.y, o.y)), fx_mul(self.z, o.z))
    }

    pub fn length(&self) -> (r: i64)
        ensures
            r as int == s_len(self.v()),
    {
        fx_sqrt(self.dot(self))
    }

    pub fn normalized(&self) -> (r: Vec3)
        ensures
            r.v() == s_normalized(self.v()),
    {
        let len = self.length();
        Vec3 { x: fx_div(self.x, len), y: fx_div(self.y, len), z: fx_div(self.z, len) }
    }

    /// Componentwise reciprocal, used for precomputed inverse ray
    /// directions; a zero coordinate inverts to a signed extreme.
    pub fn invert(&self) -> (r: Vec3)
        ensures
            r.v() == s_invert(self.v()),
    {
        Vec3 {
            x: fx_div(FX_ONE, self.x),
            y: fx_div(FX_ONE, self.y),
            z: fx_div(FX_ONE, self.z),
        }
    }

    pub fn near_zero(&self) -> (r: bool)
        ensures
            r == s_near_zero(self.v()),
    {
        fx_abs(self.x) < NEAR_ZERO_EPS && fx_abs(self.y) < NEAR_ZERO_EPS && fx_abs(self.z)
            < NEAR_ZERO_EPS
    }

    pub fn reflect(&self, n: &Vec3) -> (r: Vec3)
        ensures
            r.v() == s_reflect(self.v(), n.v()),
    {
        let k = fx_mul(FX_TWO, self.dot(n));
        self.sub(&n.scale(k))
    }

    pub fn refract(&self, n: &Vec3, ratio: i64) -> (r: Vec3)
        ensures
            r.v() == s_refract(self.v(), n.v(), ratio as int),
    {
        let cos_theta = fx_min(self.neg().dot(n), FX_ONE);
        let r_out_perp = self.add(&n.scale(cos_theta)).scale(ratio);
        let r_out_parallel = n.scale(
            fx_neg(fx_sqrt(fx_abs(fx_sub(FX_ONE, r_out_perp.dot(&r_out_perp))))),
        );
        r_out_perp.add(&r_out_parallel)
    }
}

} // verus!
