use raytrace::fixed::{
    fx_abs, fx_add, fx_div, fx_max, fx_min, fx_mul, fx_neg, fx_of, fx_sqrt, fx_sub, FX_HALF,
    FX_MAX, FX_MIN, FX_ONE, FX_TWO,
};
use raytrace::vec3::Vec3;

#[test]
fn mul_exact_whole_numbers() {
    assert_eq!(fx_mul(3 * FX_ONE, 2 * FX_ONE), 6 * FX_ONE);
    assert_eq!(fx_mul(-3 * FX_ONE, 2 * FX_ONE), -6 * FX_ONE);
    assert_eq!(fx_mul(FX_HALF, FX_HALF), FX_ONE / 4);
}

#[test]
fn mul_truncates_toward_zero() {
    assert_eq!(fx_mul(1, 1), 0);
    assert_eq!(fx_mul(-1, 1), 0);
    assert_eq!(fx_mul(3, FX_HALF), 1);
    assert_eq!(fx_mul(-3, FX_HALF), -1);
}

#[test]
fn mul_saturates() {
    assert_eq!(fx_mul(FX_MAX, FX_TWO), FX_MAX);
    assert_eq!(fx_mul(FX_MAX, -FX_TWO), FX_MIN);
}

#[test]
fn add_sub_saturate() {
    assert_eq!(fx_add(FX_MAX, FX_MAX), FX_MAX);
    assert_eq!(fx_sub(FX_MIN, FX_ONE), FX_MIN);
    assert_eq!(fx_add(2 * FX_ONE, 3 * FX_ONE), 5 * FX_ONE);
}

#[test]
fn div_exact_and_by_zero() {
    assert_eq!(fx_div(6 * FX_ONE, 2 * FX_ONE), 3 * FX_ONE);
    assert_eq!(fx_div(FX_ONE, FX_TWO), FX_HALF);
    assert_eq!(fx_div(FX_ONE, 0), FX_MAX);
    assert_eq!(fx_div(-FX_ONE, 0), FX_MIN);
    assert_eq!(fx_div(0, 0), FX_MAX);
}

#[test]
fn sqrt_exact_and_truncated() {
    assert_eq!(fx_sqrt(4 * FX_ONE), 2 * FX_ONE);
    assert_eq!(fx_sqrt(FX_ONE), FX_ONE);
    assert_eq!(fx_sqrt(0), 0);
    assert_eq!(fx_sqrt(-FX_ONE), 0);
    // sqrt(2) = 1.41421..., truncated on the 1/65536 grid
    assert_eq!(fx_sqrt(2 * FX_ONE), 92681);
}

#[test]
fn neg_abs_min_max() {
    assert_eq!(fx_neg(FX_ONE), -FX_ONE);
    assert_eq!(fx_neg(i64::MIN), FX_MAX);
    assert_eq!(fx_abs(-3 * FX_ONE), 3 * FX_ONE);
    assert_eq!(fx_min(2, -5), -5);
    assert_eq!(fx_max(2, -5), 2);
    assert_eq!(fx_of(-7), -7 * FX_ONE);
}

#[test]
fn vector_dot_and_length() {
    let v = Vec3::new(3 * FX_ONE, 4 * FX_ONE, 0);
    assert_eq!(v.dot(&v), 25 * FX_ONE);
    assert_eq!(v.length(), 5 * FX_ONE);
    let u = v.normalized();
    // (0.6, 0.8, 0) exactly on the scalar grid
    assert_eq!(u, Vec3::new(39321, 52428, 0));
}

#[test]
fn vector_reflect() {
    // reflect (1,-1,0) about the upward normal: (1,1,0)
    let v = Vec3::new(FX_ONE, -FX_ONE, 0);
    let n = Vec3::new(0, FX_ONE, 0);
    assert_eq!(v.reflect(&n), Vec3::new(FX_ONE, FX_ONE, 0));
}

#[test]
fn vector_invert_and_near_zero() {
    let v = Vec3::new(FX_TWO, -FX_HALF, 0);
    let inv = v.invert();
    assert_eq!(inv.x, FX_HALF);
    assert_eq!(inv.y, -2 * FX_ONE);
    assert_eq!(inv.z, FX_MAX);
    assert!(Vec3::new(0, 1, -1).near_zero());
    assert!(!Vec3::new(0, 0, 100).near_zero());
}
