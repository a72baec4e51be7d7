use raytracer::camera::Camera;
use raytracer::fixed::SCALE;
use raytracer::math::Vec3;
use raytracer::render::{
    draw, hit_channel, hit_sphere, miss_channel, pixel_coord, ray_color, scene_sphere,
    sky_gradient, Rgb, HEIGHT, WIDTH,
};

const S: i64 = SCALE;

#[test]
fn test_sphere_hit_head_on() {
    // A ray straight down the view axis hits the unit-distance sphere of
    // radius 0.5 at t = 0.5.
    let cam = Camera::new(400, 225);
    let dir = Vec3::new(0, 0, -S);
    let t = hit_sphere(Vec3::new(0, 0, -S), S / 2, &cam, &dir);
    assert_eq!(t, S / 2);
    assert!(t > 0);

    // The surface normal at the hit point has length 1.
    let hit_point = Vec3::new(0, 0, -t);
    let offset = Vec3::new(hit_point.x, hit_point.y, hit_point.z + S);
    let normal = offset.normalized();
    assert_eq!(normal, Vec3::new(0, 0, S));
    assert!((normal.length() as f32 / S as f32 - 1.0).abs() < 1e-3);
}

#[test]
fn test_sphere_miss_straight_up() {
    // A ray straight up misses: negative discriminant, sentinel t <= 0,
    // and the gradient branch shades it, far from the hit branch's color.
    let cam = Camera::new(400, 225);
    let dir = Vec3::new(0, S, 0);
    let t = hit_sphere(Vec3::new(0, 0, -S), S / 2, &cam, &dir);
    assert_eq!(t, -S);
    assert!(t <= 0);

    let sphere = scene_sphere();
    let grad = sky_gradient();
    let miss_color = ray_color(&cam, &sphere, &grad, &dir);
    assert_eq!(miss_color, Rgb { r: 229, g: 229, b: 229 });
    let hit_color = ray_color(&cam, &sphere, &grad, &Vec3::new(0, 0, -S));
    assert_eq!(hit_color, Rgb { r: 127, g: 127, b: 255 });
    assert_ne!(miss_color, hit_color);
}

#[test]
fn test_hit_sphere_zero_radius() {
    // A degenerate sphere of radius zero on the ray's path: the
    // discriminant is exactly zero and the ray reaches it at t = 1.
    let cam = Camera::new(400, 225);
    let dir = Vec3::new(0, 0, -S);
    let t = hit_sphere(Vec3::new(0, 0, -S), 0, &cam, &dir);
    assert_eq!(t, S);
}

#[test]
fn test_hit_channel_extremes() {
    // 127.5 * (n + 1), truncated: -1 maps to 0, 0 to 127, 1 to 255.
    assert_eq!(hit_channel(-S), 0);
    assert_eq!(hit_channel(0), 127);
    assert_eq!(hit_channel(S), 255);
}

#[test]
fn test_miss_channel_exact() {
    // ((1-t)*low + t*high) * 255, truncated, stops in tenths.
    assert_eq!(miss_channel(0, 5, 9), 127);
    assert_eq!(miss_channel(S, 5, 9), 229);
    assert_eq!(miss_channel(S / 2, 5, 9), 178);
    assert_eq!(miss_channel(0, 7, 9), 178);
    assert_eq!(miss_channel(0, 8, 9), 204);
}

#[test]
fn test_pixel_coord_extremes() {
    assert_eq!(pixel_coord(0, WIDTH), 0);
    assert_eq!(pixel_coord(WIDTH - 1, WIDTH), S);
    assert_eq!(pixel_coord(0, HEIGHT), 0);
    assert_eq!(pixel_coord(HEIGHT - 1, HEIGHT), S);
}

#[test]
fn test_scene_constants() {
    let sphere = scene_sphere();
    assert_eq!(sphere.center, Vec3::new(0, 0, -S));
    assert_eq!(sphere.radius, S / 2);
    let grad = sky_gradient();
    assert_eq!(grad.low, Vec3::new(5, 7, 8));
    assert_eq!(grad.high, Vec3::new(9, 9, 9));
}

#[test]
fn test_draw_deterministic() {
    // Two draws for the same camera agree byte for byte, whatever the
    // buffers held before.
    let cam = Camera::new(400, 225);
    let mut frame_a = vec![0u8; WIDTH * HEIGHT * 4];
    let mut frame_b = vec![17u8; WIDTH * HEIGHT * 4];
    draw(&mut frame_a, &cam);
    draw(&mut frame_b, &cam);
    assert_eq!(frame_a, frame_b);
}

#[test]
fn test_center_pixel_hits_sphere() {
    let cam = Camera::new(400, 225);
    let mut frame = vec![0u8; WIDTH * HEIGHT * 4];
    draw(&mut frame, &cam);
    // The middle of the image looks straight at the sphere: normal
    // nearly (0, 0, 1), so the blue channel saturates.
    let i = (HEIGHT / 2) * WIDTH + WIDTH / 2;
    assert_eq!(frame[4 * i + 2], 255);
    assert_eq!(frame[4 * i + 3], 255);
}

#[test]
fn test_corner_pixels() {
    // The first and last pixels of the frame carry the colors of the
    // rays through viewport coordinates (0, 0) and (1, 1).
    let cam = Camera::new(400, 225);
    let mut frame = vec![0u8; WIDTH * HEIGHT * 4];
    draw(&mut frame, &cam);

    let sphere = scene_sphere();
    let grad = sky_gradient();
    let c00 = ray_color(&cam, &sphere, &grad, &cam.direction(0, 0));
    assert_eq!(frame[0], c00.r);
    assert_eq!(frame[1], c00.g);
    assert_eq!(frame[2], c00.b);
    assert_eq!(frame[3], 255);
    assert_eq!((c00.r, c00.g, c00.b), (156, 192, 211));

    let last = WIDTH * HEIGHT - 1;
    let c11 = ray_color(&cam, &sphere, &grad, &cam.direction(S, S));
    assert_eq!(frame[4 * last], c11.r);
    assert_eq!(frame[4 * last + 1], c11.g);
    assert_eq!(frame[4 * last + 2], c11.b);
    assert_eq!(frame[4 * last + 3], 255);
    assert_eq!((c11.r, c11.g, c11.b), (200, 215, 222));
}
