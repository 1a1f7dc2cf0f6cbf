use icosphere::fixed::ONE;
use icosphere::math::{Camera, Mat4x4};

#[test]
fn projection_scales_match_the_frustum_formula() {
    // aspect 16/9, fov 70 degrees, near 1, far 100
    let aspect = ((16.0 / 9.0) * ONE as f64).round() as i64;
    let cam = Camera::new(aspect, 70 * ONE, ONE, 100 * ONE).unwrap();
    let tan_half = (35.0_f64).to_radians().tan();
    let expected00 = (1.0 / ((16.0 / 9.0) * tan_half) * ONE as f64).round() as i64;
    let expected11 = (1.0 / tan_half * ONE as f64).round() as i64;
    assert!(
        (cam.projection.m00 - expected00).abs() <= 32,
        "m00 {} expected {}",
        cam.projection.m00,
        expected00
    );
    assert!(
        (cam.projection.m11 - expected11).abs() <= 32,
        "m11 {} expected {}",
        cam.projection.m11,
        expected11
    );
}

#[test]
fn projection_depth_entries_map_near_and_far() {
    let aspect = ONE;
    let cam = Camera::new(aspect, 90 * ONE, ONE, 100 * ONE).unwrap();
    // -(far + near) / (far - near) == -101/99
    let expected22 = (-(101.0 / 99.0) * ONE as f64).round() as i64;
    // -(2 * far * near) / (far - near) == -200/99
    let expected23 = (-(200.0 / 99.0) * ONE as f64).round() as i64;
    assert!((cam.projection.m22 - expected22).abs() <= 4);
    assert!((cam.projection.m23 - expected23).abs() <= 4);
    assert_eq!(cam.projection.m32, -ONE);
    assert_eq!(cam.projection.m33, 0);
    assert_eq!(cam.projection.m01, 0);
    assert_eq!(cam.projection.m10, 0);
}

#[test]
fn view_starts_as_the_identity() {
    let cam = Camera::new(ONE, 70 * ONE, ONE, 100 * ONE).unwrap();
    assert_eq!(cam.view, Mat4x4::identity());
}

#[test]
fn degenerate_planes_are_rejected() {
    // near == far divides by zero in the depth terms
    assert!(Camera::new(ONE, 70 * ONE, ONE, ONE).is_none());
}

#[test]
fn degenerate_field_of_view_is_rejected() {
    // fov 0: tangent zero
    assert!(Camera::new(ONE, 0, ONE, 100 * ONE).is_none());
}

#[test]
fn zero_aspect_is_rejected() {
    assert!(Camera::new(0, 70 * ONE, ONE, 100 * ONE).is_none());
}
