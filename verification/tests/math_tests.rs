use raytracer::fixed::SCALE;
use raytracer::math::{cross_prod, dot_prod, Vec3};

const S: i64 = SCALE;

#[test]
fn test_new_components() {
    let v = Vec3::new(1, -2, 3);
    assert_eq!(v.x, 1);
    assert_eq!(v.y, -2);
    assert_eq!(v.z, 3);
}

#[test]
fn test_length_pythagorean() {
    // A 3-4-5 triangle: |(3, 4, 0)| == 5 exactly, in fixed point.
    let v = Vec3::new(3 * S, 4 * S, 0);
    assert_eq!(v.length(), 5 * S);
}

#[test]
fn test_length_unit_axis() {
    assert_eq!(Vec3::new(S, 0, 0).length(), S);
    assert_eq!(Vec3::new(0, -S, 0).length(), S);
    // The smallest nonzero vectors round down to one fixed-point step.
    assert_eq!(Vec3::new(1, 1, 0).length(), 1);
}

#[test]
fn test_normalized_unit_length() {
    // Normalizing brings the length to 1.0 within rounding error.
    let v = Vec3::new(3 * S, 4 * S, 0);
    let n = v.normalized();
    assert_eq!(n, Vec3::new(39321, 52428, 0));
    let len = n.length();
    assert!((len - S).abs() <= 4, "normalized length {} is off", len);
    let as_world = len as f32 / S as f32;
    assert!((as_world - 1.0).abs() < 1e-3);

    // A vector of only a few fixed-point steps still normalizes well.
    let tiny = Vec3::new(1, 2, 2);
    let nt = tiny.normalized();
    assert_eq!(nt, Vec3::new(21845, 43690, 43690));
    assert!((nt.length() - S).abs() <= 4);
}

#[test]
fn test_dot_exact() {
    // dot(u, v) == u.x*v.x + u.y*v.y + u.z*v.z exactly: (1*4 + 2*5 + 3*6) == 32.
    let u = Vec3::new(S, 2 * S, 3 * S);
    let v = Vec3::new(4 * S, 5 * S, 6 * S);
    assert_eq!(dot_prod(&u, &v), 32 * S);
}

#[test]
fn test_dot_z_term_is_a_product() {
    // 2 * 3 == 6; a z-term degenerated into an addition would give 5.
    let u = Vec3::new(0, 0, 2 * S);
    let v = Vec3::new(0, 0, 3 * S);
    assert_eq!(dot_prod(&u, &v), 6 * S);
}

#[test]
fn test_dot_orthogonal_is_zero() {
    let u = Vec3::new(S, 0, 0);
    let v = Vec3::new(0, S, 0);
    assert_eq!(dot_prod(&u, &v), 0);
}

#[test]
fn test_cross_right_handed() {
    // x cross y == z.
    let x = Vec3::new(S, 0, 0);
    let y = Vec3::new(0, S, 0);
    assert_eq!(cross_prod(&x, &y), Vec3::new(0, 0, S));
}

#[test]
fn test_cross_anticommutative() {
    // cross(u, v) == -cross(v, u), component for component, exactly.
    let u = Vec3::new(S, 2 * S, 3 * S);
    let v = Vec3::new(4 * S, 5 * S, 6 * S);
    let uv = cross_prod(&u, &v);
    let vu = cross_prod(&v, &u);
    assert_eq!(uv, Vec3::new(-196608, 393216, -196608));
    assert_eq!(vu.x, -uv.x);
    assert_eq!(vu.y, -uv.y);
    assert_eq!(vu.z, -uv.z);
}
