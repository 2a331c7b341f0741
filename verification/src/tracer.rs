//! The recursive integrator.

use vstd::prelude::*;

use crate::fixed::{fx_add, fx_add_v, fx_mul, fx_mul_v, fx_sub, fx_sub_v, FX_HALF, FX_MAX, FX_ONE};
use crate::hit::{lemma_world_first_hit_source, s_world_first_hit, World};
use crate::material::{s_bounce_outcome, ScatterSample};
use crate::ray::Ray;
use crate::rng::{random_in_unit_sphere, random_uniform, random_unit_vector};
use crate::vec3::{s_add, s_cmul, s_normalized, s_scale, Color, V3i, Vec3};

verus! {

/// Lower ray bound for bounce queries, about 0.001: keeps a scattered
/// ray from re-hitting its own origin (shadow acne).
pub const T_MIN_BOUNCE: i64 = 66;

/// The sky gradient a missed ray returns: the direction's vertical
/// component, normalized and mapped from `[-1, 1]` to `t` in `[0, 1]`,
/// blends white into sky blue `(0.5, 0.7, 1.0)` (0.7 truncated to the
/// scalar grid).
pub open spec fn s_background(dir: V3i) -> V3i {
    let unit = s_normalized(dir);
    let t = fx_mul_v(FX_HALF as int, fx_add_v(unit.y, FX_ONE as int));
    s_add(
        s_scale(V3i { x: FX_ONE as int, y: FX_ONE as int, z: FX_ONE as int }, fx_sub_v(FX_ONE as int, t)),
        s_scale(V3i { x: FX_HALF as int, y: 45875, z: FX_ONE as int }, t),
    )
}

/// One path-traced sample. Black at exhausted depth; on a miss, exactly
/// the background gradient; on a hit, the material's attenuation times
/// the recursive color of the scattered ray, or black when the material
/// absorbs the ray.
pub fn ray_color(ray: &Ray, world: &World, depth: u64) -> (r: Color)
    requires
        world.wf(),
    ensures
        depth == 0 ==> r == (Vec3 { x: 0, y: 0, z: 0 }),
        depth > 0 && s_world_first_hit(*world, *ray, T_MIN_BOUNCE as int, FX_MAX as int) is None
            ==> r.v() == s_background(ray.direction_v()),
        depth > 0 ==> (s_world_first_hit(*world, *ray, T_MIN_BOUNCE as int, FX_MAX as int)
            matches Some(h) ==> s_bounce_outcome(world.materials@[h.material], *ray, h, r.v())),
    decreases depth,
{
    if depth == 0 {
        return Vec3::new(0, 0, 0);
    }

    proof {
        lemma_world_first_hit_source(*world, *ray, T_MIN_BOUNCE as int, FX_MAX as int);
    }
    if let Option::Some(record) = world.first_hit(ray, T_MIN_BOUNCE, FX_MAX) {
        let sample = ScatterSample {
            unit: random_unit_vector(),
            in_sphere: random_in_unit_sphere(),
            uniform: random_uniform(),
        };
        let material = &world.materials[record.material];
        if let Option::Some((attenuation, scattered)) = material.scatter(ray, &record, &sample) {
            let rest = ray_color(&scattered, world, depth - 1);
            let c = attenuation.cmul(&rest);
            proof {
                assert(crate::material::s_material_scatter(*material, *ray, record.v(), sample)
                    matches Some(pair) && c.v() == s_cmul(pair.0, rest.v()));
            }
            c
        } else {
            proof {
                assert(crate::material::s_material_scatter(*material, *ray, record.v(), sample)
                    is None);
            }
            Vec3::new(0, 0, 0)
        }
    } else {
        let unit_direction = ray.direction().normalized();
        let time = fx_mul(FX_HALF, fx_add(unit_direction.y, FX_ONE));
        let white = Vec3::new(FX_ONE, FX_ONE, FX_ONE);
        let sky = Vec3::new(FX_HALF, 45875, FX_ONE);
        white.scale(fx_sub(FX_ONE, time)).add(&sky.scale(time))
    }
}

} // verus!
