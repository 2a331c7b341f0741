//! The randomness source and derived samplers.
//!
//! One trusted wrapper draws a uniform raw scalar from the thread-local
//! generator; everything built on it is verified. Two calls on the same
//! arguments may of course differ, so contracts state only what holds of
//! every outcome.

use vstd::prelude::*;

use rand::Rng;

use crate::fixed::{FX_HALF, FX_ONE};
use crate::vec3::{s_dot, s_normalized, V3i, Vec3};

verus! {

/// Relies on rand::Rng::gen_range over an `i64` half-open range on the
/// thread-local generator: the sample lies in `[lo, hi)`, and the call
/// panics only on an empty range, which the precondition rules out.
#[verifier::external_body]
fn rand_raw_in(lo: i64, hi: i64) -> (r: i64)
    requires
        lo < hi,
    ensures
        lo <= r < hi,
{
    rand::thread_rng().gen_range(lo..hi)
}

/// A uniform scalar in `[0, 1)`.
pub fn random_uniform() -> (r: i64)
    ensures
        0 <= r < FX_ONE,
{
    rand_raw_in(0, FX_ONE)
}

/// A uniform scalar in `[lo, hi)`.
pub fn random_range(lo: i64, hi: i64) -> (r: i64)
    requires
        lo < hi,
    ensures
        lo <= r < hi,
{
    rand_raw_in(lo, hi)
}

/// A point strictly inside the unit sphere, with nonzero squared length,
/// by bounded rejection sampling (a fixed interior point if every draw
/// is rejected, which keeps the bound without biasing honest draws).
pub fn random_in_unit_sphere() -> (r: Vec3)
    ensures
        0 < s_dot(r.v(), r.v()) < FX_ONE,
{
    let mut tries: usize = 0;
    while tries < 64
        invariant
            tries <= 64,
        decreases 64 - tries,
    {
        let p = Vec3::new(
            rand_raw_in(-FX_ONE + 1, FX_ONE),
            rand_raw_in(-FX_ONE + 1, FX_ONE),
            rand_raw_in(-FX_ONE + 1, FX_ONE),
        );
        let len2 = p.dot(&p);
        if 0 < len2 && len2 < FX_ONE {
            return p;
        }
        tries = tries + 1;
    }
    let fallback = Vec3::new(FX_HALF, 0, 0);
    proof {
        assert(32768int * 32768int == 1073741824int);
        assert(1073741824int / 65536int == 16384int) by (nonlinear_arith);
        assert(crate::fixed::mag(1073741824int) / crate::fixed::mag(65536int) == 16384int);
        assert(crate::fixed::fx_mul_v(FX_HALF as int, FX_HALF as int) == 16384);
        assert(crate::fixed::fx_mul_v(0, 0) == 0);
        assert(s_dot(fallback.v(), fallback.v()) == 16384);
    }
    fallback
}

/// A direction of roughly unit length: the normalization of a nonzero
/// in-sphere sample.
pub fn random_unit_vector() -> (r: Vec3)
    ensures
        exists|p: V3i| 0 < s_dot(p, p) < FX_ONE && r.v() == #[trigger] s_normalized(p),
{
    let p = random_in_unit_sphere();
    let r = p.normalized();
    proof {
        assert(0 < s_dot(p.v(), p.v()) < FX_ONE && r.v() == s_normalized(p.v()));
    }
    r
}

} // verus!
