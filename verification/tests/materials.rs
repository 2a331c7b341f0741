use raytrace::fixed::{FX_HALF, FX_MAX, FX_ONE, FX_TWO};
use raytrace::hit::{HitRecord, World};
use raytrace::material::{Dielectric, Lambertian, Material, Metal, ScatterSample};
use raytrace::ray::Ray;
use raytrace::rng::{random_in_unit_sphere, random_uniform, random_unit_vector};
use raytrace::scene::default_scene;
use raytrace::sphere::Sphere;
use raytrace::tracer::ray_color;
use raytrace::vec3::Vec3;

fn head_on_record() -> HitRecord {
    HitRecord {
        point: Vec3::new(0, 0, -FX_ONE),
        normal: Vec3::new(0, 0, -FX_ONE),
        material: 0,
        time: 4 * FX_ONE,
        front_face: true,
    }
}

fn head_on_ray() -> Ray {
    Ray::new(Vec3::new(0, 0, -5 * FX_ONE), Vec3::new(0, 0, FX_ONE))
}

fn sample(unit: Vec3, in_sphere: Vec3, uniform: i64) -> ScatterSample {
    ScatterSample { unit, in_sphere, uniform }
}

#[test]
fn lambertian_always_scatters_with_albedo() {
    let albedo = Vec3::new(26214, 13107, 6554);
    let mat = Lambertian::new(albedo);
    let rec = head_on_record();
    let s = sample(Vec3::new(0, FX_ONE, 0), Vec3::new(0, 0, 0), 0);
    let (attenuation, scattered) = mat.scatter(&head_on_ray(), &rec, &s).expect("always scatters");
    assert_eq!(attenuation, albedo);
    assert_eq!(scattered.origin(), rec.point);
    // normal + unit sample
    assert_eq!(scattered.direction(), Vec3::new(0, FX_ONE, -FX_ONE));
}

#[test]
fn lambertian_near_zero_falls_back_to_normal() {
    let mat = Lambertian::new(Vec3::new(FX_HALF, FX_HALF, FX_HALF));
    let rec = head_on_record();
    // unit sample exactly opposite the normal: sum is zero
    let s = sample(Vec3::new(0, 0, FX_ONE), Vec3::new(0, 0, 0), 0);
    let (_, scattered) = mat.scatter(&head_on_ray(), &rec, &s).unwrap();
    assert_eq!(scattered.direction(), rec.normal);
}

#[test]
fn metal_reflects_clean_and_absorbs_grazing() {
    let albedo = Vec3::new(45875, 39322, FX_HALF);
    let rec = head_on_record();
    // No fuzz: reflect (0,0,1) about (0,0,-1) to (0,0,-1); leaves surface.
    let clean = Metal::new(albedo, 0);
    let (attenuation, scattered) =
        clean.scatter(&head_on_ray(), &rec, &sample(Vec3::new(0, 0, 0), Vec3::new(0, 0, 0), 0))
            .expect("clean reflection scatters");
    assert_eq!(attenuation, albedo);
    assert_eq!(scattered.direction(), Vec3::new(0, 0, -FX_ONE));
    // Strong fuzz pushing the reflection back into the surface:
    // direction's dot with the normal is no longer positive: absorbed.
    let fuzzy = Metal::new(albedo, FX_TWO);
    let absorbed =
        fuzzy.scatter(&head_on_ray(), &rec, &sample(Vec3::new(0, 0, 0), Vec3::new(0, 0, FX_HALF), 0));
    assert!(absorbed.is_none());
}

#[test]
fn dielectric_index_one_does_not_bend() {
    let mat = Dielectric::new(FX_ONE);
    let rec = head_on_record();
    let (attenuation, scattered) =
        mat.scatter(&head_on_ray(), &rec, &sample(Vec3::new(0, 0, 0), Vec3::new(0, 0, 0), FX_HALF))
            .expect("dielectric always scatters");
    assert_eq!(attenuation, Vec3::new(FX_ONE, FX_ONE, FX_ONE));
    // Straight through: the scattered direction is the incident unit
    // direction, unbent.
    assert_eq!(scattered.direction(), Vec3::new(0, 0, FX_ONE));
    assert_eq!(scattered.origin(), rec.point);
}

#[test]
fn dielectric_total_internal_reflection() {
    // From inside glass (back face, ratio 1.5) at a grazing angle:
    // ratio * sin > 1 forces reflection.
    let mat = Dielectric::new(98304);
    let rec = HitRecord {
        point: Vec3::new(0, 0, 0),
        normal: Vec3::new(0, FX_ONE, 0),
        material: 0,
        time: FX_ONE,
        front_face: false,
    };
    let ray = Ray::new(
        Vec3::new(-5 * FX_ONE, 4 * FX_ONE, 0),
        Vec3::new(5 * FX_ONE, -4 * FX_ONE, 0),
    );
    let (_, scattered) = mat.scatter(&ray, &rec, &sample(Vec3::new(0, 0, 0), Vec3::new(0, 0, 0), FX_MAX))
        .expect("dielectric always scatters");
    // Reflection flips the vertical component upward.
    assert!(scattered.direction().y > 0);
    assert!(scattered.direction().x > 0);
}

#[test]
fn ray_color_depth_zero_is_black() {
    let world = World::new();
    let ray = Ray::new(Vec3::new(0, 0, 0), Vec3::new(FX_ONE, FX_ONE, FX_ONE));
    assert_eq!(ray_color(&ray, &world, 0), Vec3::new(0, 0, 0));
    let scene = default_scene();
    assert_eq!(ray_color(&ray, &scene, 0), Vec3::new(0, 0, 0));
}

#[test]
fn ray_color_miss_is_exact_gradient() {
    let world = World::new();
    // Horizontal ray: unit vertical component 0, blend factor 1/2:
    // (1,1,1)/2 + (0.5, 0.7, 1.0)/2 on the scalar grid.
    let level = Ray::new(Vec3::new(0, 0, 0), Vec3::new(0, 0, FX_ONE));
    assert_eq!(ray_color(&level, &world, 5), Vec3::new(49152, 55705, FX_ONE));
    // Straight up: blend factor 1, pure sky blue.
    let up = Ray::new(Vec3::new(0, 0, 0), Vec3::new(0, FX_ONE, 0));
    assert_eq!(ray_color(&up, &world, 5), Vec3::new(FX_HALF, 45875, FX_ONE));
    // Straight down: blend factor 0, white.
    let down = Ray::new(Vec3::new(0, 0, 0), Vec3::new(0, -FX_ONE, 0));
    assert_eq!(ray_color(&down, &world, 5), Vec3::new(FX_ONE, FX_ONE, FX_ONE));
}

#[test]
fn ray_color_absorbed_is_black() {
    // A metal sphere with huge fuzz absorbs most rays eventually; here a
    // Lambertian world just checks the bounce terminates within depth.
    let spheres = vec![Sphere::new(Vec3::new(0, 0, 4 * FX_ONE), FX_ONE, 0)];
    let world = World {
        spheres,
        materials: vec![Material::Lambertian(Lambertian::new(Vec3::new(FX_HALF, FX_HALF, FX_HALF)))],
        root: None,
    };
    let ray = Ray::new(Vec3::new(0, 0, 0), Vec3::new(0, 0, FX_ONE));
    let c = ray_color(&ray, &world, 4);
    for comp in [c.x, c.y, c.z] {
        assert!((-FX_ONE..=2 * FX_ONE).contains(&comp));
    }
}

#[test]
fn random_samplers_stay_in_range() {
    for _ in 0..50 {
        let u = random_uniform();
        assert!((0..FX_ONE).contains(&u));
        let p = random_in_unit_sphere();
        let len2 = p.dot(&p);
        assert!(len2 > 0 && len2 < FX_ONE);
        let v = random_unit_vector();
        assert!(v.dot(&v) > 0);
    }
}

#[test]
fn random_uniform_is_not_constant() {
    // 100 honest uniform draws on a 65536-value grid collide all
    // together with vanishing probability.
    let first = random_uniform();
    let mut saw_other = false;
    for _ in 0..100 {
        if random_uniform() != first {
            saw_other = true;
        }
    }
    assert!(saw_other);
}

#[test]
fn default_scene_shape() {
    let world = default_scene();
    assert_eq!(world.spheres.len(), 533);
    assert_eq!(world.materials.len(), 533);
    assert!(world.root.is_some());
    for s in &world.spheres {
        assert!(s.radius > 0);
        assert!(s.material < world.materials.len());
    }
    // Trace a few pixels' worth of rays through the full pipeline.
    let ray = Ray::new(
        Vec3::new(13 * FX_ONE, 2 * FX_ONE, 3 * FX_ONE),
        Vec3::new(-13 * FX_ONE, -2 * FX_ONE, -3 * FX_ONE),
    );
    let c = ray_color(&ray, &world, 8);
    for comp in [c.x, c.y, c.z] {
        assert!((-FX_ONE..=2 * FX_ONE).contains(&comp));
    }
}
