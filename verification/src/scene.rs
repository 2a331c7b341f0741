//! The default random scene: a ground sphere, a 23 x 23 grid of small
//! spheres with randomly chosen materials, three showcase spheres, and
//! an acceleration tree over all of them.

use vstd::prelude::*;

use crate::bvh::BvhNode;
use crate::fixed::{fx_add, fx_of, FX_HALF, FX_ONE};
use crate::hit::World;
use crate::material::{Dielectric, Lambertian, Material, Metal};
use crate::rng::{random_range, random_uniform};
use crate::sphere::Sphere;
use crate::vec3::{Color, Vec3};

verus! {

/// Probability thresholds and dimensions on the scalar grid:
/// diffuse below ~0.8, metal below ~0.95, glass otherwise.
pub const CHOOSE_DIFFUSE: i64 = 52429;

pub const CHOOSE_METAL: i64 = 62259;

/// Grid sphere radius, ~0.2.
pub const SMALL_RADIUS: i64 = 13107;

/// Ground sphere radius, 1000.
pub const GROUND_RADIUS: i64 = 65536000;

/// The material forms drawn for a grid sphere: a diffuse of any albedo,
/// a metal with fuzz below one half, or glass of index 1.5.
pub open spec fn s_grid_material(m: Material) -> bool {
    match m {
        Material::Lambertian(_) => true,
        Material::Metal(mt) => 0 <= mt.fuzz < FX_HALF,
        Material::Dielectric(d) => d.refraction_index == 98304,
    }
}

/// Build the default scene. The world is well formed and carries a tree
/// over every sphere; sphere `k` names material `k`. Sphere 0 is the
/// ground (radius 1000 below the origin, gray diffuse); spheres 1..529
/// are the grid (radius 0.2, resting on the ground plane, each with a
/// randomly drawn grid material); spheres 530..532 are the three unit
/// showcase spheres (glass, diffuse, polished metal).
pub fn default_scene() -> (r: World)
    ensures
        r.wf(),
        r.spheres@.len() == 533,
        r.materials@.len() == 533,
        forall|k: int| 0 <= k < 533 ==> ((#[trigger] r.spheres@[k]).material as int) == k,
        r.spheres@[0].radius == GROUND_RADIUS,
        r.spheres@[0].center.x == 0 && r.spheres@[0].center.y == -GROUND_RADIUS
            && r.spheres@[0].center.z == 0,
        r.materials@[0] == Material::Lambertian(
            Lambertian { albedo: (Vec3 { x: FX_HALF, y: FX_HALF, z: FX_HALF }) },
        ),
        forall|k: int|
            1 <= k < 530 ==> (#[trigger] r.spheres@[k]).radius == SMALL_RADIUS
                && r.spheres@[k].center.y == SMALL_RADIUS && s_grid_material(r.materials@[k]),
        forall|k: int| 530 <= k < 533 ==> (#[trigger] r.spheres@[k]).radius == FX_ONE,
        r.spheres@[530].center.x == 0 && r.spheres@[530].center.y == FX_ONE
            && r.spheres@[530].center.z == 0,
        r.spheres@[531].center.x == -4 * FX_ONE && r.spheres@[531].center.y == FX_ONE
            && r.spheres@[531].center.z == 0,
        r.spheres@[532].center.x == 4 * FX_ONE && r.spheres@[532].center.y == FX_ONE
            && r.spheres@[532].center.z == 0,
        r.materials@[530] == Material::Dielectric(Dielectric { refraction_index: 98304 }),
        r.materials@[531] == Material::Lambertian(
            Lambertian { albedo: (Vec3 { x: 26214, y: 13107, z: 6554 }) },
        ),
        r.materials@[532] == Material::Metal(
            Metal { albedo: (Vec3 { x: 45875, y: 39322, z: FX_HALF }), fuzz: 0 },
        ),
        r.root matches Some(root) && (forall|v: int|
            crate::bvh::node_leaves(root).contains(v) <==> 0 <= v < r.spheres@.len()),
{
    let mut spheres: Vec<Sphere> = Vec::new();
    let mut materials: Vec<Material> = Vec::new();

    materials.push(Material::Lambertian(Lambertian::new(Vec3::new(FX_HALF, FX_HALF, FX_HALF))));
    spheres.push(Sphere::new(Vec3::new(0, -GROUND_RADIUS, 0), GROUND_RADIUS, 0));

    let mut a: i64 = -11;
    while a <= 11
        invariant
            -11 <= a <= 12,
            spheres@.len() == 1 + (a + 11) * 23,
            spheres@.len() == materials@.len(),
            forall|k: int|
                0 <= k < spheres@.len() ==> (spheres@[k].material as int) < materials@.len(),
            spheres@.len() >= 1,
            forall|k: int|
                0 <= k < spheres@.len() ==> ((#[trigger] spheres@[k]).material as int) == k,
            spheres@[0].radius == GROUND_RADIUS,
            spheres@[0].center.x == 0 && spheres@[0].center.y == -GROUND_RADIUS
                && spheres@[0].center.z == 0,
            materials@[0] == Material::Lambertian(
                Lambertian { albedo: (Vec3 { x: FX_HALF, y: FX_HALF, z: FX_HALF }) },
            ),
            forall|k: int|
                1 <= k < spheres@.len() ==> (#[trigger] spheres@[k]).radius == SMALL_RADIUS
                    && spheres@[k].center.y == SMALL_RADIUS && s_grid_material(materials@[k]),
        decreases 12 - a,
    {
        let mut b: i64 = -11;
        while b <= 11
            invariant
                -11 <= a <= 11,
                -11 <= b <= 12,
                spheres@.len() == 1 + (a + 11) * 23 + (b + 11),
                spheres@.len() == materials@.len(),
                forall|k: int|
                    0 <= k < spheres@.len() ==> (spheres@[k].material as int) < materials@.len(),
                spheres@.len() >= 1,
                forall|k: int|
                    0 <= k < spheres@.len() ==> ((#[trigger] spheres@[k]).material as int) == k,
                spheres@[0].radius == GROUND_RADIUS,
                spheres@[0].center.x == 0 && spheres@[0].center.y == -GROUND_RADIUS
                    && spheres@[0].center.z == 0,
                materials@[0] == Material::Lambertian(
                    Lambertian { albedo: (Vec3 { x: FX_HALF, y: FX_HALF, z: FX_HALF }) },
                ),
                forall|k: int|
                    1 <= k < spheres@.len() ==> (#[trigger] spheres@[k]).radius == SMALL_RADIUS
                        && spheres@[k].center.y == SMALL_RADIUS && s_grid_material(materials@[k]),
            decreases 12 - b,
        {
            let choose_mat = random_uniform();
            let center = Vec3::new(
                fx_add(fx_of(a), random_range(0, 58982)),
                SMALL_RADIUS,
                fx_add(fx_of(b), random_range(0, 58982)),
            );

            let mat: Material;
            if choose_mat < CHOOSE_DIFFUSE {
                let albedo = Color::new(
                    random_range(0, FX_ONE),
                    random_range(0, FX_ONE),
                    random_range(0, FX_ONE),
                ).cmul(
                    &Color::new(
                        random_range(0, FX_ONE),
                        random_range(0, FX_ONE),
                        random_range(0, FX_ONE),
                    ),
                );
                mat = Material::Lambertian(Lambertian::new(albedo));
            } else if choose_mat < CHOOSE_METAL {
                let albedo = Color::new(
                    random_range(26214, FX_ONE),
                    random_range(26214, FX_ONE),
                    random_range(26214, FX_ONE),
                );
                let fuzz = random_range(0, FX_HALF);
                mat = Material::Metal(Metal::new(albedo, fuzz));
            } else {
                mat = Material::Dielectric(Dielectric::new(98304));
            }
            let mat_idx = materials.len();
            materials.push(mat);
            spheres.push(Sphere::new(center, SMALL_RADIUS, mat_idx));
            b = b + 1;
        }
        a = a + 1;
    }

    let idx1 = materials.len();
    materials.push(Material::Dielectric(Dielectric::new(98304)));
    spheres.push(Sphere::new(Vec3::new(0, FX_ONE, 0), FX_ONE, idx1));

    let idx2 = materials.len();
    materials.push(Material::Lambertian(Lambertian::new(Vec3::new(26214, 13107, 6554))));
    spheres.push(Sphere::new(Vec3::new(-4 * FX_ONE, FX_ONE, 0), FX_ONE, idx2));

    let idx3 = materials.len();
    materials.push(Material::Metal(Metal::new(Vec3::new(45875, 39322, FX_HALF), 0)));
    spheres.push(Sphere::new(Vec3::new(4 * FX_ONE, FX_ONE, 0), FX_ONE, idx3));

    let mut indices: Vec<usize> = Vec::new();
    let n = spheres.len();
    let mut i: usize = 0;
    while i < n
        invariant
            0 <= i <= n,
            indices@.len() == i,
            forall|k: int| 0 <= k < i ==> indices@[k] == k,
        decreases n - i,
    {
        indices.push(i);
        i = i + 1;
    }
    proof {
        assert forall|v: int| crate::bvh::has_idx(indices@, v) <==> 0 <= v < n as int by {
            if crate::bvh::has_idx(indices@, v) {
                let j = choose|j: int| 0 <= j < indices@.len() && indices@[j] as int == v;
            }
            if 0 <= v < n as int {
                assert(indices@[v] as int == v);
            }
        }
    }
    let root = BvhNode::new(&spheres, indices);
    World { spheres, materials, root: Option::Some(root) }
}

} // verus!
