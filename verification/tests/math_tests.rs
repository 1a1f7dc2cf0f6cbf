use icosphere::fixed::{fx_div, fx_mul, isqrt_u64, ONE};
use icosphere::math::{Mat4x4, Vec3};
use icosphere::trig::{cos_fx, radians, sin_fx, tan_fx, HALF_PI_FX, PI_FX, TWO_PI_FX};

fn approx(actual: i64, expected: f64, tol: i64) -> bool {
    let e = (expected.round()) as i64;
    (actual - e).abs() <= tol
}

#[test]
fn fixed_point_products_and_quotients_are_exact() {
    // 1.5 * 1.5 == 2.25
    assert_eq!(fx_mul(98304, 98304), 147456);
    // -1.5 * 2.0 == -3.0
    assert_eq!(fx_mul(-98304, 2 * ONE), -3 * ONE);
    // 1.0 / 3.0 truncates toward zero
    assert_eq!(fx_div(ONE, 3 * ONE), 21845);
    assert_eq!(fx_div(-ONE, 3 * ONE), -21845);
    assert_eq!(isqrt_u64(0), 0);
    assert_eq!(isqrt_u64(17), 4);
    assert_eq!(isqrt_u64(u64::MAX), 4294967295);
}

#[test]
fn trig_matches_the_real_functions_within_tolerance() {
    assert_eq!(sin_fx(0), 0);
    assert!(approx(cos_fx(0), ONE as f64, 16));
    assert!(approx(sin_fx(radians(90 * ONE)), ONE as f64, 16));
    assert!(approx(sin_fx(radians(-90 * ONE)), -(ONE as f64), 16));
    assert!(approx(cos_fx(radians(90 * ONE)), 0.0, 16));
    assert!(approx(sin_fx(radians(45 * ONE)), 0.70710678 * ONE as f64, 16));
    assert!(approx(cos_fx(radians(180 * ONE)), -(ONE as f64), 16));
    // full turns reduce
    assert!(approx(sin_fx(radians(450 * ONE)), ONE as f64, 16));
    let t45 = tan_fx(radians(45 * ONE)).unwrap();
    assert!(approx(t45, ONE as f64, 16));
}

#[test]
fn dot_and_cross_follow_the_determinant_expansion() {
    let a = Vec3 { x: ONE, y: 2 * ONE, z: 3 * ONE };
    let b = Vec3 { x: 4 * ONE, y: 5 * ONE, z: 6 * ONE };
    assert_eq!(a.dot(b), 32 * ONE);
    let x = Vec3 { x: ONE, y: 0, z: 0 };
    let y = Vec3 { x: 0, y: ONE, z: 0 };
    let c = x.cross(y);
    assert_eq!((c.x, c.y, c.z), (0, 0, ONE));
    let c2 = y.cross(x);
    assert_eq!((c2.x, c2.y, c2.z), (0, 0, -ONE));
}

#[test]
fn componentwise_arithmetic_is_exact() {
    let a = Vec3 { x: ONE, y: -2 * ONE, z: 3 * ONE };
    let b = Vec3 { x: ONE, y: ONE, z: -ONE };
    let s = a.add(b);
    assert_eq!((s.x, s.y, s.z), (2 * ONE, -ONE, 2 * ONE));
    let d = a.sub(b);
    assert_eq!((d.x, d.y, d.z), (0, -3 * ONE, 4 * ONE));
    let n = a.neg();
    assert_eq!((n.x, n.y, n.z), (-ONE, 2 * ONE, -3 * ONE));
    let m = a.mul(b);
    assert_eq!((m.x, m.y, m.z), (ONE, -2 * ONE, -3 * ONE));
    let q = a.div_scalar(2 * ONE);
    assert_eq!((q.x, q.y, q.z), (ONE / 2, -ONE, 3 * ONE / 2));
    let k = a.mul_scalar(-ONE);
    assert_eq!((k.x, k.y, k.z), (-ONE, 2 * ONE, -3 * ONE));
}

#[test]
fn normalization_scales_to_unit_length() {
    let v = Vec3 { x: 3 * ONE, y: 0, z: 0 };
    let u = v.normalized();
    assert_eq!((u.x, u.y, u.z), (ONE, 0, 0));
    let w = Vec3 { x: ONE, y: ONE, z: ONE };
    let uw = w.normalized();
    let lsq = (uw.x as i128 * uw.x as i128 + uw.y as i128 * uw.y as i128
        + uw.z as i128 * uw.z as i128) / (ONE as i128);
    assert!((lsq - ONE as i128).abs() <= 64, "squared length {} not close to {}", lsq, ONE);
}

#[test]
fn normalization_is_accurate_for_tiny_vectors() {
    // the smallest admitted vectors (positive squared length) are
    // pre-scaled before dividing, so they land on the unit sphere too
    for v in [
        Vec3 { x: 300, y: 0, z: 0 },
        Vec3 { x: 256, y: 256, z: 0 },
        Vec3 { x: -300, y: 200, z: 150 },
        Vec3 { x: 0, y: 0, z: 260 },
    ] {
        let u = v.normalized();
        let lsq = (u.x as i128 * u.x as i128 + u.y as i128 * u.y as i128
            + u.z as i128 * u.z as i128) / (ONE as i128);
        assert!(
            (lsq - ONE as i128).abs() <= 16,
            "({}, {}, {}) normalized to squared length {}",
            v.x,
            v.y,
            v.z,
            lsq
        );
    }
    let t = Vec3 { x: 300, y: 0, z: 0 }.normalized();
    assert_eq!((t.x, t.y, t.z), (ONE, 0, 0));
}

#[test]
fn rotation_by_zero_degrees_is_the_identity() {
    assert_eq!(cos_fx(0), ONE);
    let mut m = Mat4x4::identity();
    m.translate(Vec3 { x: 5 * ONE, y: -2 * ONE, z: 7 * ONE });
    m.scale(Vec3 { x: 2 * ONE, y: ONE, z: ONE });
    let before = m;
    m.rotate(0, Vec3 { x: 0, y: ONE, z: 0 });
    assert_eq!(m, before);
    m.rotate(0, Vec3 { x: ONE, y: 0, z: 0 });
    assert_eq!(m, before);
}

#[test]
fn directions_are_unit_axis_vectors() {
    assert_eq!(Vec3::zero().x, 0);
    let up = Vec3::up();
    assert_eq!((up.x, up.y, up.z), (0, ONE, 0));
    let down = Vec3::down();
    assert_eq!((down.x, down.y, down.z), (0, -ONE, 0));
    let front = Vec3::front();
    assert_eq!((front.x, front.y, front.z), (0, 0, ONE));
    let back = Vec3::back();
    assert_eq!((back.x, back.y, back.z), (0, 0, -ONE));
    let left = Vec3::left();
    assert_eq!((left.x, left.y, left.z), (ONE, 0, 0));
    let right = Vec3::right();
    assert_eq!((right.x, right.y, right.z), (-ONE, 0, 0));
    assert_eq!(up.x(), 0);
    assert_eq!(up.y(), ONE);
    assert_eq!(up.z(), 0);
}

#[test]
fn identity_is_a_left_and_right_multiplicative_identity() {
    let mut m = Mat4x4::identity();
    m.translate(Vec3 { x: 5 * ONE, y: 0, z: -10 * ONE });
    m.rotate(45 * ONE, Vec3 { x: 0, y: 0, z: ONE });
    let m0 = m;
    let mut i = Mat4x4::identity();
    i.mul_assign(&m0);
    assert_eq!(i, m0);
    let mut m2 = m0;
    m2.mul_assign(&Mat4x4::identity());
    assert_eq!(m2, m0);
}

#[test]
fn translate_then_rotate_differs_from_rotate_then_translate() {
    let v = Vec3 { x: 5 * ONE, y: 0, z: 0 };
    let axis = Vec3 { x: 0, y: 0, z: ONE };
    let mut a = Mat4x4::identity();
    a.translate(v);
    a.rotate(90 * ONE, axis);
    let mut b = Mat4x4::identity();
    b.rotate(90 * ONE, axis);
    b.translate(v);
    assert_ne!(a, b);
    // the translation column differs: rotating last carries the
    // translation through the rotation
    assert!((a.m13 - 5 * ONE).abs() <= 64, "a.m13 = {}", a.m13);
    assert!((b.m03 - 5 * ONE).abs() <= 64, "b.m03 = {}", b.m03);
}

#[test]
fn rotation_matrix_has_the_rodrigues_entries() {
    let mut m = Mat4x4::identity();
    m.rotate(90 * ONE, Vec3 { x: 0, y: ONE, z: 0 });
    // around y: m00 == cos, m02 == sin, m20 == -sin, m22 == cos
    assert!(m.m00.abs() <= 16);
    assert!((m.m02 - ONE).abs() <= 16);
    assert!((m.m20 + ONE).abs() <= 16);
    assert!(m.m22.abs() <= 16);
    assert_eq!(m.m11, ONE);
}

#[test]
fn scaling_sets_the_diagonal() {
    let mut m = Mat4x4::identity();
    m.scale(Vec3 { x: 2 * ONE, y: 3 * ONE, z: 4 * ONE });
    assert_eq!(m.m00, 2 * ONE);
    assert_eq!(m.m11, 3 * ONE);
    assert_eq!(m.m22, 4 * ONE);
    assert_eq!(m.m33, ONE);
    assert_eq!(m.m01, 0);
}

#[test]
fn degree_conversion_is_exact_at_half_turns() {
    assert_eq!(radians(180 * ONE), PI_FX);
    assert_eq!(radians(-180 * ONE), -PI_FX);
    assert_eq!(radians(0), 0);
    // the quarter- and full-turn constants are consistent
    assert_eq!(radians(90 * ONE), HALF_PI_FX - 1);
    assert_eq!(radians(360 * ONE), TWO_PI_FX - 1);
}
