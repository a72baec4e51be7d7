use raytracer::camera::Camera;
use raytracer::fixed::SCALE;
use raytracer::math::Vec3;

const S: i64 = SCALE;

#[test]
fn test_camera_400_225() {
    // aspect 400/225 = 1.7778 gives a viewport 3.5556 wide and 2 high,
    // with the lower-left corner at (-1.7778, -1, -1).
    let cam = Camera::new(400, 225);
    assert_eq!(cam.v_width, 233016);
    assert_eq!(cam.v_height, 2 * S);
    assert_eq!(cam.focal_length, S);
    assert_eq!(cam.origin, Vec3::new(0, 0, 0));
    assert_eq!(cam.horizontal, Vec3::new(233016, 0, 0));
    assert_eq!(cam.vertical, Vec3::new(0, 2 * S, 0));
    assert_eq!(cam.ll_corner, Vec3::new(-116508, -S, -S));

    let aspect = (cam.v_width as f32 / 2.0) / S as f32;
    assert!((aspect - 1.7778).abs() < 1e-3);
    let viewport_width = cam.v_width as f32 / S as f32;
    assert!((viewport_width - 3.5556).abs() < 1e-3);
    assert!((cam.ll_corner.x as f32 / S as f32 - -1.7778).abs() < 1e-3);
    assert!((cam.ll_corner.y as f32 / S as f32 - -1.0).abs() < 1e-6);
    assert!((cam.ll_corner.z as f32 / S as f32 - -1.0).abs() < 1e-6);
}

#[test]
fn test_direction_corners() {
    // direction(0, 0) is exactly ll_corner - origin; direction(1, 1) is
    // exactly ll_corner + horizontal + vertical - origin.
    let cam = Camera::new(400, 225);
    let d00 = cam.direction(0, 0);
    assert_eq!(
        d00,
        Vec3::new(
            cam.ll_corner.x - cam.origin.x,
            cam.ll_corner.y - cam.origin.y,
            cam.ll_corner.z - cam.origin.z,
        )
    );
    let d11 = cam.direction(S, S);
    assert_eq!(
        d11,
        Vec3::new(
            cam.ll_corner.x + cam.horizontal.x + cam.vertical.x - cam.origin.x,
            cam.ll_corner.y + cam.horizontal.y + cam.vertical.y - cam.origin.y,
            cam.ll_corner.z + cam.horizontal.z + cam.vertical.z - cam.origin.z,
        )
    );
    assert_eq!(d00, Vec3::new(-116508, -S, -S));
    assert_eq!(d11, Vec3::new(116508, S, -S));
}

#[test]
fn test_direction_stays_on_focal_plane() {
    let cam = Camera::new(640, 480);
    assert_eq!(cam.direction(0, 0).z, -S);
    assert_eq!(cam.direction(S / 2, S / 4).z, -S);
    assert_eq!(cam.direction(S, S).z, -S);
}

#[test]
fn test_square_camera() {
    // A square image has aspect ratio 1: the viewport is 2 by 2.
    let cam = Camera::new(256, 256);
    assert_eq!(cam.v_width, 2 * S);
    assert_eq!(cam.ll_corner, Vec3::new(-S, -S, -S));
}
