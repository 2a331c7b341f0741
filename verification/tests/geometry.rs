use raytrace::aabb::Aabb;
use raytrace::bvh::{BvhChild, BvhNode};
use raytrace::fixed::{FX_MAX, FX_ONE};
use raytrace::hit::World;
use raytrace::material::{Lambertian, Material};
use raytrace::ray::Ray;
use raytrace::scene::default_scene;
use raytrace::sphere::Sphere;
use raytrace::tracer::T_MIN_BOUNCE;
use raytrace::vec3::Vec3;

fn gray_world(spheres: Vec<Sphere>) -> World {
    World {
        spheres,
        materials: vec![Material::Lambertian(Lambertian::new(Vec3::new(32768, 32768, 32768)))],
        root: None,
    }
}

#[test]
fn unit_sphere_head_on_hit() {
    // Unit sphere at the origin, ray from (0,0,-5) toward +z:
    // hit at t=4, point (0,0,-1), outward-facing normal (0,0,-1).
    let sphere = Sphere::new(Vec3::new(0, 0, 0), FX_ONE, 0);
    let ray = Ray::new(Vec3::new(0, 0, -5 * FX_ONE), Vec3::new(0, 0, FX_ONE));
    let rec = sphere.hit(&ray, T_MIN_BOUNCE, FX_MAX).expect("must hit");
    assert_eq!(rec.time, 4 * FX_ONE);
    assert_eq!(rec.point, Vec3::new(0, 0, -FX_ONE));
    assert_eq!(rec.normal, Vec3::new(0, 0, -FX_ONE));
    assert!(rec.front_face);
    assert_eq!(rec.material, 0);
}

#[test]
fn sphere_miss_and_far_root() {
    let sphere = Sphere::new(Vec3::new(0, 0, 0), FX_ONE, 0);
    // Parallel ray well off axis: no hit.
    let miss = Ray::new(Vec3::new(0, 3 * FX_ONE, -5 * FX_ONE), Vec3::new(0, 0, FX_ONE));
    assert!(sphere.hit(&miss, T_MIN_BOUNCE, FX_MAX).is_none());
    // Ray starting inside: the near root is behind t_min, the far root
    // (t=1, the back wall) is taken, striking the inside.
    let inside = Ray::new(Vec3::new(0, 0, 0), Vec3::new(0, 0, FX_ONE));
    let rec = sphere.hit(&inside, T_MIN_BOUNCE, FX_MAX).expect("must hit");
    assert_eq!(rec.time, FX_ONE);
    assert!(!rec.front_face);
    assert_eq!(rec.normal, Vec3::new(0, 0, -FX_ONE));
}

#[test]
fn set_face_normal_flips_backside() {
    let sphere = Sphere::new(Vec3::new(0, 0, 0), FX_ONE, 0);
    let ray = Ray::new(Vec3::new(0, 0, -5 * FX_ONE), Vec3::new(0, 0, FX_ONE));
    let mut rec = sphere.hit(&ray, T_MIN_BOUNCE, FX_MAX).unwrap();
    // Outward normal pointing along the ray: stored flipped, back face.
    rec.set_face_normal(&ray, Vec3::new(0, 0, FX_ONE));
    assert!(!rec.front_face);
    assert_eq!(rec.normal, Vec3::new(0, 0, -FX_ONE));
}

#[test]
fn aabb_slab_test() {
    let unit_box = Aabb::new(
        Vec3::new(-FX_ONE, -FX_ONE, -FX_ONE),
        Vec3::new(FX_ONE, FX_ONE, FX_ONE),
    );
    let toward = Ray::new(Vec3::new(0, 0, -5 * FX_ONE), Vec3::new(0, 0, FX_ONE));
    assert!(unit_box.hit(&toward, T_MIN_BOUNCE, FX_MAX));
    let away = Ray::new(Vec3::new(0, 0, -5 * FX_ONE), Vec3::new(0, 0, -FX_ONE));
    assert!(!unit_box.hit(&away, T_MIN_BOUNCE, FX_MAX));
    let sideways = Ray::new(Vec3::new(0, 3 * FX_ONE, -5 * FX_ONE), Vec3::new(0, 0, FX_ONE));
    assert!(!unit_box.hit(&sideways, T_MIN_BOUNCE, FX_MAX));
    // Origin inside the box: accepted immediately.
    let from_inside = Ray::new(Vec3::new(0, 0, 0), Vec3::new(0, 0, -FX_ONE));
    assert!(unit_box.hit(&from_inside, T_MIN_BOUNCE, FX_MAX));
}

#[test]
fn surrounding_box_contains_both() {
    let a = Aabb::new(Vec3::new(0, 0, 0), Vec3::new(FX_ONE, FX_ONE, FX_ONE));
    let b = Aabb::new(
        Vec3::new(-FX_ONE, 2, -5 * FX_ONE),
        Vec3::new(3 * FX_ONE, FX_ONE / 2, 5 * FX_ONE),
    );
    let u = Aabb::surrounding_box(a, b).unwrap();
    assert_eq!(u.min(), Vec3::new(-FX_ONE, 0, -5 * FX_ONE));
    assert_eq!(u.max(), Vec3::new(3 * FX_ONE, FX_ONE, 5 * FX_ONE));
    for bx in [a, b] {
        assert!(u.min().x <= bx.min().x && u.min().y <= bx.min().y && u.min().z <= bx.min().z);
        assert!(bx.max().x <= u.max().x && bx.max().y <= u.max().y && bx.max().z <= u.max().z);
    }
    // Commutative, and associative across a third box.
    let c = Aabb::new(Vec3::new(-9 * FX_ONE, 0, 0), Vec3::new(9 * FX_ONE, 0, 0));
    let vu = Aabb::surrounding_box(b, a).unwrap();
    assert_eq!(u.min(), vu.min());
    assert_eq!(u.max(), vu.max());
    let left = Aabb::surrounding_box(Aabb::surrounding_box(a, b).unwrap(), c).unwrap();
    let right = Aabb::surrounding_box(a, Aabb::surrounding_box(b, c).unwrap()).unwrap();
    assert_eq!(left.min(), right.min());
    assert_eq!(left.max(), right.max());
}

#[test]
fn surface_area_exact() {
    let bx = Aabb::new(Vec3::new(0, 0, 0), Vec3::new(FX_ONE, 2 * FX_ONE, 3 * FX_ONE));
    // extents 1,2,3: 2 * (1*2 + 1*3 + 2*3) = 22
    assert_eq!(bx.surface_area(), 22 * FX_ONE);
}

#[test]
fn world_linear_scan_nearest() {
    let spheres = vec![
        Sphere::new(Vec3::new(0, 0, 10 * FX_ONE), FX_ONE, 0),
        Sphere::new(Vec3::new(0, 0, 4 * FX_ONE), FX_ONE, 0),
        Sphere::new(Vec3::new(0, 0, 20 * FX_ONE), FX_ONE, 0),
    ];
    let world = gray_world(spheres);
    let ray = Ray::new(Vec3::new(0, 0, 0), Vec3::new(0, 0, FX_ONE));
    let rec = world.hit(&ray, T_MIN_BOUNCE, FX_MAX).expect("must hit");
    assert_eq!(rec.time, 3 * FX_ONE);
}

#[test]
fn world_bounding_box() {
    let world = gray_world(vec![
        Sphere::new(Vec3::new(0, 0, 0), FX_ONE, 0),
        Sphere::new(Vec3::new(5 * FX_ONE, 0, 0), FX_ONE, 0),
    ]);
    let bx = world.bounding_box().unwrap();
    assert_eq!(bx.min(), Vec3::new(-FX_ONE, -FX_ONE, -FX_ONE));
    assert_eq!(bx.max(), Vec3::new(6 * FX_ONE, FX_ONE, FX_ONE));
    assert!(gray_world(Vec::new()).bounding_box().is_none());
}

#[test]
fn bvh_three_spheres_nearest() {
    let spheres = vec![
        Sphere::new(Vec3::new(-4 * FX_ONE, 0, 0), FX_ONE, 0),
        Sphere::new(Vec3::new(0, 0, 0), FX_ONE, 0),
        Sphere::new(Vec3::new(4 * FX_ONE, 0, 0), FX_ONE, 0),
    ];
    let root = BvhNode::new(&spheres, vec![0, 1, 2]);
    let ray = Ray::new(Vec3::new(-10 * FX_ONE, 0, 0), Vec3::new(FX_ONE, 0, 0));
    let rec = root.hit(&spheres, &ray, T_MIN_BOUNCE, FX_MAX).expect("must hit");
    assert_eq!(rec.time, 5 * FX_ONE);
    let bb = root.bounding_box().unwrap();
    assert_eq!(bb.min(), Vec3::new(-5 * FX_ONE, -FX_ONE, -FX_ONE));
    assert_eq!(bb.max(), Vec3::new(5 * FX_ONE, FX_ONE, FX_ONE));
}

#[test]
fn bvh_two_spheres_ordered() {
    // Two equal spheres separated on x: the one with the smaller box
    // minimum goes left, regardless of input order.
    let spheres = vec![
        Sphere::new(Vec3::new(4 * FX_ONE, 0, 0), FX_ONE, 0),
        Sphere::new(Vec3::new(-4 * FX_ONE, 0, 0), FX_ONE, 0),
    ];
    let root = BvhNode::new(&spheres, vec![0, 1]);
    assert!(matches!(root.left, BvhChild::Prim(1)));
    assert!(matches!(root.right, BvhChild::Prim(0)));
}

#[test]
fn bvh_single_sphere_degenerate() {
    let spheres = vec![Sphere::new(Vec3::new(0, 0, 0), FX_ONE, 0)];
    let root = BvhNode::new(&spheres, vec![0]);
    let ray = Ray::new(Vec3::new(0, 0, -5 * FX_ONE), Vec3::new(0, 0, FX_ONE));
    let rec = root.hit(&spheres, &ray, T_MIN_BOUNCE, FX_MAX).expect("must hit");
    assert_eq!(rec.time, 4 * FX_ONE);
    let miss = Ray::new(Vec3::new(0, 5 * FX_ONE, -5 * FX_ONE), Vec3::new(0, 0, FX_ONE));
    assert!(root.hit(&spheres, &miss, T_MIN_BOUNCE, FX_MAX).is_none());
}

#[test]
fn bvh_agrees_with_scan_on_random_scene() {
    let world = default_scene();
    let root = world.root.as_ref().expect("scene carries a tree");
    let origins = [
        Vec3::new(13 * FX_ONE, 2 * FX_ONE, 3 * FX_ONE),
        Vec3::new(0, 10 * FX_ONE, 0),
        Vec3::new(-8 * FX_ONE, FX_ONE, -8 * FX_ONE),
    ];
    let dirs = [
        Vec3::new(-13 * FX_ONE, -2 * FX_ONE, -3 * FX_ONE),
        Vec3::new(0, -FX_ONE, 0),
        Vec3::new(FX_ONE, 0, FX_ONE),
        Vec3::new(FX_ONE, -FX_ONE, FX_ONE),
    ];
    for o in origins {
        for d in dirs {
            let ray = Ray::new(o, d);
            let fast = root.hit(&world.spheres, &ray, T_MIN_BOUNCE, FX_MAX);
            let slow = world.hit(&ray, T_MIN_BOUNCE, FX_MAX);
            match (&fast, &slow) {
                (None, None) => {}
                (Some(a), Some(b)) => assert_eq!(a.time, b.time),
                _ => panic!("tree and scan disagree on whether the ray hits"),
            }
        }
    }
}
