//! Materials and their scattering rules.
//!
//! Scattering consumes randomness. The random draws are passed in
//! explicitly as a `ScatterSample`, so every scattering function is
//! deterministic and carries an exact contract; callers draw the sample
//! from their own source (see `rng`).

use vstd::prelude::*;

use crate::fixed::{
    fx_abs, fx_abs_v, fx_add, fx_add_v, fx_div, fx_div_v, fx_min, fx_min_v, fx_mul, fx_mul_v,
    fx_sqrt, fx_sqrt_v, fx_sub, fx_sub_v, FX_ONE,
};
use crate::hit::{HitRecord, HitS};
use crate::ray::Ray;
use crate::vec3::{
    s_add, s_cmul, s_dot, s_near_zero, s_neg, s_normalized, s_reflect, s_refract, s_scale, Color,
    V3i, Vec3,
};

verus! {

/// Randomness for one scattering decision: a unit-length direction, a
/// point inside the unit sphere, and a uniform scalar in `[0, FX_ONE)`.
pub struct ScatterSample {
    pub unit: Vec3,
    pub in_sphere: Vec3,
    pub uniform: i64,
}

pub struct Lambertian {
    pub albedo: Color,
}

pub struct Metal {
    pub albedo: Color,
    pub fuzz: i64,
}

pub struct Dielectric {
    pub refraction_index: i64,
}

/// The closed set of materials; dispatch is by pattern match.
pub enum Material {
    Lambertian(Lambertian),
    Metal(Metal),
    Dielectric(Dielectric),
}

/// Diffuse bounce direction: the normal plus a random unit vector, or
/// the normal alone if that sum is numerically near zero.
pub open spec fn s_lambertian_dir(normal: V3i, rand_unit: V3i) -> V3i {
    let d = s_add(normal, rand_unit);
    if s_near_zero(d) {
        normal
    } else {
        d
    }
}

/// Mirror direction: the normalized incident direction reflected about
/// the normal, perturbed by `fuzz` times a random in-sphere point.
pub open spec fn s_metal_dir(ray_dir: V3i, normal: V3i, fuzz: int, in_sphere: V3i) -> V3i {
    s_add(s_reflect(s_normalized(ray_dir), normal), s_scale(in_sphere, fuzz))
}

/// Index ratio seen by the ray: `1/ior` entering from outside, `ior`
/// from inside.
pub open spec fn s_refraction_ratio(ior: int, front_face: bool) -> int {
    if front_face {
        fx_div_v(FX_ONE as int, ior)
    } else {
        ior
    }
}

pub open spec fn s_cos_theta(unit_dir: V3i, normal: V3i) -> int {
    fx_min_v(fx_abs_v(s_dot(s_neg(unit_dir), normal)), FX_ONE as int)
}

pub open spec fn s_sin_theta(cos_theta: int) -> int {
    fx_sqrt_v(fx_sub_v(FX_ONE as int, fx_mul_v(cos_theta, cos_theta)))
}

/// Schlick's reflectance approximation:
/// `r0 + (1 - r0) (1 - cos)^5` with `r0 = ((1 - n) / (1 + n))^2`.
pub open spec fn s_reflectance(cosine: int, refraction_index: int) -> int {
    let r0 = fx_div_v(fx_sub_v(FX_ONE as int, refraction_index), fx_add_v(FX_ONE as int, refraction_index));
    let r0sq = fx_mul_v(r0, r0);
    let omc = fx_sub_v(FX_ONE as int, cosine);
    let omc5 = fx_mul_v(fx_mul_v(fx_mul_v(fx_mul_v(omc, omc), omc), omc), omc);
    fx_add_v(r0sq, fx_mul_v(fx_sub_v(FX_ONE as int, r0sq), omc5))
}

/// Total internal reflection is forced when `ratio * sin > 1`.
pub open spec fn s_cannot_refract(ratio: int, sin_theta: int) -> bool {
    fx_mul_v(ratio, sin_theta) > FX_ONE as int
}

/// The dielectric reflects when refraction is impossible or when the
/// Schlick reflectance beats the uniform draw; otherwise it refracts.
pub open spec fn s_dielectric_reflects(
    ray_dir: V3i,
    normal: V3i,
    ior: int,
    front_face: bool,
    uniform: int,
) -> bool {
    let unit = s_normalized(ray_dir);
    let ratio = s_refraction_ratio(ior, front_face);
    let cos = s_cos_theta(unit, normal);
    s_cannot_refract(ratio, s_sin_theta(cos)) || s_reflectance(cos, ratio) > uniform
}

pub open spec fn s_dielectric_dir(
    ray_dir: V3i,
    normal: V3i,
    ior: int,
    front_face: bool,
    uniform: int,
) -> V3i {
    let unit = s_normalized(ray_dir);
    let ratio = s_refraction_ratio(ior, front_face);
    if s_dielectric_reflects(ray_dir, normal, ior, front_face, uniform) {
        s_reflect(unit, normal)
    } else {
        s_refract(unit, normal, ratio)
    }
}

impl Lambertian {
    pub fn new(albedo: Color) -> (r: Lambertian)
        ensures
            r.albedo == albedo,
    {
        Lambertian { albedo }
    }

    /// Always scatters; the attenuation is exactly the albedo.
    pub fn scatter(&self, _ray_in: &Ray, record: &HitRecord, sample: &ScatterSample) -> (r:
        Option<(Color, Ray)>)
        ensures
            r matches Some(pair) && pair.0 == self.albedo && pair.1.origin == record.point
                && pair.1.direction.v() == s_lambertian_dir(record.normal.v(), sample.unit.v())
                && pair.1.wf(),
    {
        let mut scatter_direction = record.normal.add(&sample.unit);
        if scatter_direction.near_zero() {
            scatter_direction = record.normal;
        }
        let scattered = Ray::new(record.point, scatter_direction);
        Option::Some((self.albedo, scattered))
    }
}

impl Metal {
    pub fn new(albedo: Color, fuzz: i64) -> (r: Metal)
        ensures
            r.albedo == albedo,
            r.fuzz == fuzz,
    {
        Metal { albedo, fuzz }
    }

    /// Scatters exactly when the perturbed reflection leaves the
    /// surface: its dot product with the normal must be positive;
    /// otherwise the ray is absorbed.
    pub fn scatter(&self, ray_in: &Ray, record: &HitRecord, sample: &ScatterSample) -> (r:
        Option<(Color, Ray)>)
        ensures
            ({
                let dir = s_metal_dir(
                    ray_in.direction_v(),
                    record.normal.v(),
                    self.fuzz as int,
                    sample.in_sphere.v(),
                );
                match r {
                    Option::None => s_dot(dir, record.normal.v()) <= 0,
                    Option::Some(pair) => s_dot(dir, record.normal.v()) > 0 && pair.0
                        == self.albedo && pair.1.origin == record.point && pair.1.direction.v()
                        == dir && pair.1.wf(),
                }
            }),
    {
        let reflected = ray_in.direction().normalized().reflect(&record.normal);
        let scattered = Ray::new(
            record.point,
            reflected.add(&sample.in_sphere.scale(self.fuzz)),
        );
        if scattered.direction().dot(&record.normal) > 0 {
            Option::Some((self.albedo, scattered))
        } else {
            Option::None
        }
    }
}

impl Dielectric {
    pub fn new(refraction_index: i64) -> (r: Dielectric)
        ensures
            r.refraction_index == refraction_index,
    {
        Dielectric { refraction_index }
    }

    fn reflectance(cosine: i64, refraction_index: i64) -> (r: i64)
        ensures
            r as int == s_reflectance(cosine as int, refraction_index as int),
    {
        let r0 = fx_div(fx_sub(FX_ONE, refraction_index), fx_add(FX_ONE, refraction_index));
        let r0sq = fx_mul(r0, r0);
        let omc = fx_sub(FX_ONE, cosine);
        let omc5 = fx_mul(fx_mul(fx_mul(fx_mul(omc, omc), omc), omc), omc);
        fx_add(r0sq, fx_mul(fx_sub(FX_ONE, r0sq), omc5))
    }

    /// Always scatters with opaque white attenuation, reflecting or
    /// refracting as `s_dielectric_reflects` decides on the uniform
    /// draw.
    pub fn scatter(&self, ray_in: &Ray, record: &HitRecord, sample: &ScatterSample) -> (r:
        Option<(Color, Ray)>)
        ensures
            r matches Some(pair) && pair.0 == (Vec3 { x: FX_ONE, y: FX_ONE, z: FX_ONE })
                && pair.1.origin == record.point && pair.1.direction.v() == s_dielectric_dir(
                ray_in.direction_v(),
                record.normal.v(),
                self.refraction_index as int,
                record.front_face,
                sample.uniform as int,
            ) && pair.1.wf(),
    {
        let refraction_ratio = if record.front_face {
            fx_div(FX_ONE, self.refraction_index)
        } else {
            self.refraction_index
        };
        let unit_direction = ray_in.direction().normalized();
        let cos_theta = fx_min(fx_abs(unit_direction.neg().dot(&record.normal)), FX_ONE);
        let sin_theta = fx_sqrt(fx_sub(FX_ONE, fx_mul(cos_theta, cos_theta)));
        let cannot_refract = fx_mul(refraction_ratio, sin_theta) > FX_ONE;
        let will_reflect = cannot_refract || Self::reflectance(cos_theta, refraction_ratio)
            > sample.uniform;
        let direction = if will_reflect {
            unit_direction.reflect(&record.normal)
        } else {
            unit_direction.refract(&record.normal, refraction_ratio)
        };
        let scattered = Ray::new(record.point, direction);
        Option::Some((Vec3::new(FX_ONE, FX_ONE, FX_ONE), scattered))
    }
}

/// Scattering of any material, as one spec function: the attenuation
/// and direction views, or nothing when the ray is absorbed.
pub open spec fn s_material_scatter(
    m: Material,
    ray: Ray,
    rec: HitS,
    sample: ScatterSample,
) -> Option<(V3i, V3i)> {
    match m {
        Material::Lambertian(l) => Option::Some(
            (l.albedo.v(), s_lambertian_dir(rec.normal, sample.unit.v())),
        ),
        Material::Metal(mt) => {
            let dir = s_metal_dir(ray.direction_v(), rec.normal, mt.fuzz as int, sample.in_sphere.v());
            if s_dot(dir, rec.normal) > 0 {
                Option::Some((mt.albedo.v(), dir))
            } else {
                Option::None
            }
        },
        Material::Dielectric(d) => Option::Some(
            (
                V3i { x: FX_ONE as int, y: FX_ONE as int, z: FX_ONE as int },
                s_dielectric_dir(
                    ray.direction_v(),
                    rec.normal,
                    d.refraction_index as int,
                    rec.front_face,
                    sample.uniform as int,
                ),
            ),
        ),
    }
}

/// What one bounce of a material can yield, over every possible random
/// draw: under some sample the scatter decision either absorbs the ray
/// (black) or multiplies some recursive color by the attenuation the
/// material returns for that sample.
pub open spec fn s_bounce_outcome(m: Material, ray: Ray, rec: HitS, c: V3i) -> bool {
    ||| ((exists|sample: ScatterSample|
        #[trigger] s_material_scatter(m, ray, rec, sample) is None) && c == (V3i {
        x: 0,
        y: 0,
        z: 0,
    }))
    ||| (exists|sample: ScatterSample|
        (#[trigger] s_material_scatter(m, ray, rec, sample)) matches Some(pair) && (exists|
            rest: V3i,
        |
            c == #[trigger] s_cmul(pair.0, rest)))
}

/// A dielectric with refraction index 1 that does not reflect scatters
/// exactly along the incident unit direction: no bending. (Its
/// attenuation is opaque white by `scatter`'s contract.) The exactness
/// premise names the inputs on which the rounded arithmetic recovers
/// the incident cosine; elsewhere truncation can bend the direction by
/// a unit in the last place.
pub proof fn lemma_dielectric_index_one_straight(ray_dir: V3i, normal: V3i, uniform: int)
    requires
        !s_dielectric_reflects(ray_dir, normal, FX_ONE as int, true, uniform),
        crate::vec3::refract_identity_exact(s_normalized(ray_dir), normal),
    ensures
        s_dielectric_dir(ray_dir, normal, FX_ONE as int, true, uniform) == s_normalized(ray_dir),
{
    crate::fixed::lemma_fx_div_one_one();
    assert(s_refraction_ratio(FX_ONE as int, true) == FX_ONE as int);
    crate::vec3::lemma_refract_ratio_one_identity(s_normalized(ray_dir), normal);
}

impl Material {
    /// Dispatch to the variant's scattering rule.
    pub fn scatter(&self, ray_in: &Ray, record: &HitRecord, sample: &ScatterSample) -> (r:
        Option<(Color, Ray)>)
        ensures
            match r {
                Option::None => s_material_scatter(*self, *ray_in, record.v(), *sample) is None,
                Option::Some(pair) => s_material_scatter(*self, *ray_in, record.v(), *sample)
                    == Option::Some((pair.0.v(), pair.1.direction.v())) && pair.1.origin
                    == record.point && pair.1.wf(),
            },
    {
        match self {
            Material::Lambertian(l) => l.scatter(ray_in, record, sample),
            Material::Metal(m) => m.scatter(ray_in, record, sample),
            Material::Dielectric(d) => d.scatter(ray_in, record, sample),
        }
    }
}

} // verus!
