use vstd::prelude::*;
use vstd::pervasive::VecAdditionalExecFns;
use vstd::arithmetic::div_mod::{lemma_div_is_ordered, lemma_div_multiples_vanish};
use vstd::arithmetic::mul::{lemma_mul_inequality, lemma_mul_is_commutative};
use crate::fixed::{
    div_trunc, div_wide, isqrt, lemma_div_trunc_magnitude, lemma_div_trunc_rem, mul_wide,
    sqrt_floor, COORD_MAX, SCALE,
};
use crate::math::{
    dot_spec, dot_prod, lemma_dot_bound, lemma_prod_bound2, lemma_root_lt, lemma_sq_bound,
    Vec3, NORM_MAX,
};
use crate::camera::Camera;

verus! {

/// Output image dimensions in pixels.
pub const WIDTH: usize = 400;

pub const HEIGHT: usize = 225;

/// Magnitude bound on the ray parameter that `hit_sphere` returns.
pub const HIT_MAX: i64 = 4000000000000000;

/// The one primitive of the scene: a sphere given by center and radius,
/// both in fixed-point world coordinates.
#[derive(Clone, Copy, Debug, PartialEq, Eq, Structural)]
pub struct Sphere {
    pub center: Vec3,
    pub radius: i64,
}

impl Sphere {
    pub open spec fn wf(self) -> bool {
        &&& self.center.in_range()
        &&& 0 <= self.radius <= COORD_MAX
    }
}

/// The sky gradient: one color per stop, components in tenths of full
/// intensity (5 stands for 0.5), blended from `low` at the horizon to
/// `high` at the zenith.
#[derive(Clone, Copy, Debug, PartialEq, Eq, Structural)]
pub struct Gradient {
    pub low: Vec3,
    pub high: Vec3,
}

impl Gradient {
    pub open spec fn wf(self) -> bool {
        &&& self.low.bounded(10)
        &&& self.high.bounded(10)
        &&& 0 <= self.low.x && 0 <= self.low.y && 0 <= self.low.z
        &&& 0 <= self.high.x && 0 <= self.high.y && 0 <= self.high.z
    }
}

/// One displayed color, 8 bits per channel.
#[derive(Clone, Copy, Debug, PartialEq, Eq, Structural)]
pub struct Rgb {
    pub r: u8,
    pub g: u8,
    pub b: u8,
}

/// Ray origin minus sphere center.
pub open spec fn oc_spec(origin: Vec3, center: Vec3) -> Vec3 {
    Vec3 {
        x: (origin.x - center.x) as i64,
        y: (origin.y - center.y) as i64,
        z: (origin.z - center.z) as i64,
    }
}

/// The quadratic discriminant `b*b - a*c` of the ray-sphere equation.
pub open spec fn discriminant_spec(center: Vec3, radius: i64, origin: Vec3, dir: Vec3) -> int {
    let oc = oc_spec(origin, center);
    let a = dot_spec(dir, dir);
    let b = dot_spec(oc, dir);
    let c = dot_spec(oc, oc) - div_trunc(radius * radius, SCALE as int);
    b * b - a * c
}

/// The ray parameter of the near intersection, `(-b - sqrt(disc)) / a`
/// in fixed-point units, or the sentinel -SCALE (no hit) when the
/// discriminant is negative.
pub open spec fn hit_spec(center: Vec3, radius: i64, origin: Vec3, dir: Vec3) -> int {
    let oc = oc_spec(origin, center);
    let a = dot_spec(dir, dir);
    let b = dot_spec(oc, dir);
    let disc = discriminant_spec(center, radius, origin, dir);
    if disc < 0 {
        -(SCALE as int)
    } else {
        div_trunc((-b - sqrt_floor(disc)) * SCALE, a)
    }
}

/// Analytic ray-sphere intersection; exactly `hit_spec`.  The direction
/// must carry at least one fixed-point unit of squared norm, so the
/// quadratic coefficient `a` cannot vanish.
pub fn hit_sphere(center: Vec3, radius: i64, camera: &Camera, ray_dir: &Vec3) -> (t: i64)
    requires
        center.in_range(),
        0 <= radius <= COORD_MAX,
        camera.origin.in_range(),
        ray_dir.in_range(),
        ray_dir.norm_sq() >= SCALE,
    ensures
        t as int == hit_spec(center, radius, camera.origin, *ray_dir),
        -HIT_MAX <= t <= HIT_MAX,
{
    let oc = Vec3::new(
        camera.origin.x - center.x,
        camera.origin.y - center.y,
        camera.origin.z - center.z,
    );
    let a: i64 = dot_prod(ray_dir, ray_dir);
    let b: i64 = dot_prod(&oc, ray_dir);
    proof {
        lemma_dot_bound(*ray_dir, *ray_dir, COORD_MAX as int);
        lemma_dot_bound(oc, *ray_dir, 2 * COORD_MAX as int);
        lemma_dot_bound(oc, oc, 2 * COORD_MAX as int);
        lemma_sq_bound(radius as int, COORD_MAX as int);
        lemma_div_trunc_rem(radius * radius, SCALE as int);
        lemma_div_is_ordered(SCALE as int, ray_dir.norm_sq(), SCALE as int);
    }
    let c: i64 = dot_prod(&oc, &oc) - div_wide(mul_wide(radius, radius), SCALE as i128) as i64;
    proof {
        lemma_prod_bound2(b as int, b as int, 12884901889, 12884901889);
        lemma_prod_bound2(a as int, c as int, 3221225473, 13958643714);
    }
    let disc: i128 = mul_wide(b, b) - mul_wide(a, c);
    if disc < 0 {
        proof {
            assert(hit_spec(center, radius, camera.origin, *ray_dir) == -(SCALE as int));
        }
        -SCALE
    } else {
        let sd: u64 = isqrt(disc as u128);
        proof {
            lemma_root_lt(disc as int, sd as int, 17179869184);
        }
        let num: i128 = (-(b as i128) - sd as i128) * (SCALE as i128);
        proof {
            lemma_div_trunc_magnitude(num as int, a as int);
        }
        div_wide(num, a as i128) as i64
    }
}

/// A hit is shaded by the surface normal: each component n in
/// [-SCALE, SCALE] maps linearly onto [0, 255], that is
/// `(n + SCALE) * 255 / (2 * SCALE)`, rounded down.
pub open spec fn hit_channel_spec(n: int) -> int {
    ((n + SCALE) * 255) / (2 * SCALE)
}

pub fn hit_channel(n: i64) -> (c: u8)
    requires
        -SCALE <= n <= SCALE,
    ensures
        c as int == hit_channel_spec(n as int),
{
    let v: i64 = ((n + SCALE) * 255) / (2 * SCALE);
    v as u8
}

/// A miss is shaded by the sky: the two stops, in tenths of intensity,
/// blended by t in [0, SCALE] and brought to 8 bits, that is
/// `((SCALE - t) * low + t * high) * 255 / (10 * SCALE)`, rounded down.
pub open spec fn miss_channel_spec(t: int, low: int, high: int) -> int {
    (((SCALE - t) * low + t * high) * 255) / (10 * SCALE)
}

pub fn miss_channel(t: i64, low: i64, high: i64) -> (c: u8)
    requires
        0 <= t <= SCALE,
        0 <= low <= 10,
        0 <= high <= 10,
    ensures
        c as int == miss_channel_spec(t as int, low as int, high as int),
{
    proof {
        lemma_mul_is_commutative((SCALE - t) as int, low as int);
        lemma_mul_inequality(0, low as int, (SCALE - t) as int);
        lemma_mul_inequality(low as int, 10, (SCALE - t) as int);
        lemma_mul_is_commutative(t as int, high as int);
        lemma_mul_inequality(0, high as int, t as int);
        lemma_mul_inequality(high as int, 10, t as int);
    }
    let blend: i64 = (SCALE - t) * low + t * high;
    let v: i64 = (blend * 255) / (10 * SCALE);
    v as u8
}

/// A zero vector has no direction; every other vector is normalized.
/// This is the explicit decision for the degenerate normal: it shades
/// as mid-gray instead of propagating an undefined value.
pub open spec fn normalized_or_zero_spec(v: Vec3) -> Vec3 {
    if v.norm_sq() == 0 {
        Vec3 { x: 0, y: 0, z: 0 }
    } else {
        v.normalized_spec()
    }
}

fn normalized_or_zero(v: &Vec3) -> (r: Vec3)
    requires
        v.bounded(NORM_MAX as int),
    ensures
        r == normalized_or_zero_spec(*v),
        r.bounded(SCALE as int),
{
    if v.x == 0 && v.y == 0 && v.z == 0 {
        Vec3::new(0, 0, 0)
    } else {
        proof {
            lemma_sq_bound(v.x as int, NORM_MAX as int);
            lemma_sq_bound(v.y as int, NORM_MAX as int);
            lemma_sq_bound(v.z as int, NORM_MAX as int);
            if v.x != 0 {
                assert(1 <= v.x * v.x) by (nonlinear_arith)
                    requires
                        v.x != 0,
                ;
            } else if v.y != 0 {
                assert(1 <= v.y * v.y) by (nonlinear_arith)
                    requires
                        v.y != 0,
                ;
            } else {
                assert(1 <= v.z * v.z) by (nonlinear_arith)
                    requires
                        v.z != 0,
                ;
            }
        }
        v.normalized()
    }
}

/// The color seen along a ray: normal shading on a hit with positive
/// ray parameter, the sky gradient otherwise.
pub open spec fn ray_color_spec(origin: Vec3, sphere: Sphere, grad: Gradient, dir: Vec3) -> Rgb {
    let t = hit_spec(sphere.center, sphere.radius, origin, dir);
    if t > 0 {
        let p = Vec3 {
            x: (origin.x + div_trunc(t * dir.x, SCALE as int)) as i64,
            y: (origin.y + div_trunc(t * dir.y, SCALE as int)) as i64,
            z: (origin.z + div_trunc(t * dir.z, SCALE as int)) as i64,
        };
        let n = normalized_or_zero_spec(
            Vec3 {
                x: (p.x - sphere.center.x) as i64,
                y: (p.y - sphere.center.y) as i64,
                z: (p.z - sphere.center.z) as i64,
            },
        );
        Rgb {
            r: hit_channel_spec(n.x as int) as u8,
            g: hit_channel_spec(n.y as int) as u8,
            b: hit_channel_spec(n.z as int) as u8,
        }
    } else {
        let nd = dir.normalized_spec();
        let tg = (nd.y + SCALE) / 2;
        Rgb {
            r: miss_channel_spec(tg, grad.low.x as int, grad.high.x as int) as u8,
            g: miss_channel_spec(tg, grad.low.y as int, grad.high.y as int) as u8,
            b: miss_channel_spec(tg, grad.low.z as int, grad.high.z as int) as u8,
        }
    }
}

/// Shade one ray against one sphere under one sky; exactly
/// `ray_color_spec` of the camera origin.
pub fn ray_color(camera: &Camera, sphere: &Sphere, grad: &Gradient, dir: &Vec3) -> (c: Rgb)
    requires
        camera.origin.in_range(),
        sphere.wf(),
        grad.wf(),
        dir.in_range(),
        dir.norm_sq() >= SCALE,
    ensures
        c == ray_color_spec(camera.origin, *sphere, *grad, *dir),
{
    let t: i64 = hit_sphere(sphere.center, sphere.radius, camera, dir);
    if t > 0 {
        proof {
            lemma_prod_bound2(t as int, dir.x as int, HIT_MAX as int, COORD_MAX as int);
            lemma_prod_bound2(t as int, dir.y as int, HIT_MAX as int, COORD_MAX as int);
            lemma_prod_bound2(t as int, dir.z as int, HIT_MAX as int, COORD_MAX as int);
            lemma_div_trunc_rem(t * dir.x, SCALE as int);
            lemma_div_trunc_rem(t * dir.y, SCALE as int);
            lemma_div_trunc_rem(t * dir.z, SCALE as int);
        }
        let px: i64 = camera.origin.x + div_wide(mul_wide(t, dir.x), SCALE as i128) as i64;
        let py: i64 = camera.origin.y + div_wide(mul_wide(t, dir.y), SCALE as i128) as i64;
        let pz: i64 = camera.origin.z + div_wide(mul_wide(t, dir.z), SCALE as i128) as i64;
        let n = normalized_or_zero(
            &Vec3::new(px - sphere.center.x, py - sphere.center.y, pz - sphere.center.z),
        );
        Rgb { r: hit_channel(n.x), g: hit_channel(n.y), b: hit_channel(n.z) }
    } else {
        let nd = dir.normalized();
        let tg: i64 = (nd.y + SCALE) / 2;
        Rgb {
            r: miss_channel(tg, grad.low.x, grad.high.x),
            g: miss_channel(tg, grad.low.y, grad.high.y),
            b: miss_channel(tg, grad.low.z, grad.high.z),
        }
    }
}

/// The fixed scene of the renderer: a sphere of radius one half, one
/// world unit down the view axis.
pub open spec fn scene_sphere_spec() -> Sphere {
    Sphere {
        center: Vec3 { x: 0, y: 0, z: (-SCALE) as i64 },
        radius: (SCALE / 2) as i64,
    }
}

pub fn scene_sphere() -> (s: Sphere)
    ensures
        s == scene_sphere_spec(),
        s.wf(),
{
    Sphere { center: Vec3::new(0, 0, -SCALE), radius: SCALE / 2 }
}

/// The fixed sky of the renderer: a warm gradient from (0.5, 0.7, 0.8)
/// at the horizon to (0.9, 0.9, 0.9) at the zenith, in tenths.
pub open spec fn sky_gradient_spec() -> Gradient {
    Gradient { low: Vec3 { x: 5, y: 7, z: 8 }, high: Vec3 { x: 9, y: 9, z: 9 } }
}

pub fn sky_gradient() -> (g: Gradient)
    ensures
        g == sky_gradient_spec(),
        g.wf(),
{
    Gradient { low: Vec3::new(5, 7, 8), high: Vec3::new(9, 9, 9) }
}

/// Normalized viewport coordinate of pixel k of n: `k / (n - 1)` at
/// fixed-point scale, so the first pixel maps to 0 and the last to one
/// full unit.
pub open spec fn pixel_coord_spec(k: int, n: int) -> int {
    (k * SCALE) / (n - 1)
}

pub fn pixel_coord(k: usize, n: usize) -> (c: i64)
    requires
        2 <= n <= 4096,
        k < n,
    ensures
        c as int == pixel_coord_spec(k as int, n as int),
        0 <= c <= SCALE,
{
    proof {
        lemma_mul_inequality(0, k as int, SCALE as int);
        lemma_mul_inequality(k as int, n - 1, SCALE as int);
        lemma_div_is_ordered(0, k * SCALE, n - 1);
        lemma_div_is_ordered(k * SCALE, (n - 1) * SCALE, n - 1);
        lemma_div_multiples_vanish(SCALE as int, n - 1);
        lemma_mul_is_commutative(n - 1, SCALE as int);
    }
    ((k as i64) * SCALE) / ((n as i64) - 1)
}

/// The color of pixel (x, y): the shaded camera ray through the
/// normalized coordinates of that pixel.
pub open spec fn pixel_spec(cam: Camera, x: int, y: int) -> Rgb {
    ray_color_spec(
        cam.origin,
        scene_sphere_spec(),
        sky_gradient_spec(),
        cam.direction_spec(
            pixel_coord_spec(x, WIDTH as int),
            pixel_coord_spec(y, HEIGHT as int),
        ),
    )
}

/// Byte j of the frame: the bytes run R, G, B, A per pixel, pixels in
/// row-major order.
pub open spec fn frame_byte(cam: Camera, j: int) -> u8 {
    let i = j / 4;
    let p = pixel_spec(cam, i % (WIDTH as int), i / (WIDTH as int));
    if j % 4 == 0 {
        p.r
    } else if j % 4 == 1 {
        p.g
    } else if j % 4 == 2 {
        p.b
    } else {
        255u8
    }
}

/// The whole frame as a function of the camera alone: rendering has no
/// other state, so a frame is re-derivable from the camera at any time.
pub open spec fn frame_spec(cam: Camera) -> Seq<u8> {
    Seq::new((WIDTH * HEIGHT * 4) as nat, |j: int| frame_byte(cam, j))
}

/// Fill the whole frame buffer, one RGBA pixel at a time; the result is
/// exactly `frame_spec` of the camera.
pub fn draw(frame: &mut Vec<u8>, camera: &Camera)
    requires
        old(frame).len() == WIDTH * HEIGHT * 4,
        camera.wf(),
    ensures
        final(frame)@ == frame_spec(*camera),
{
    let sphere = scene_sphere();
    let grad = sky_gradient();
    let mut i: usize = 0;
    while i < WIDTH * HEIGHT
        invariant
            frame.len() == WIDTH * HEIGHT * 4,
            camera.wf(),
            sphere == scene_sphere_spec(),
            grad == sky_gradient_spec(),
            i <= WIDTH * HEIGHT,
            forall|j: int| 0 <= j < 4 * i ==> frame@[j] == frame_byte(*camera, j),
        decreases WIDTH * HEIGHT - i,
    {
        let x: usize = i % WIDTH;
        let y: usize = i / WIDTH;
        let u: i64 = pixel_coord(x, WIDTH);
        let v: i64 = pixel_coord(y, HEIGHT);
        let dir = camera.direction(u, v);
        let c = ray_color(camera, &sphere, &grad, &dir);
        frame.set(4 * i, c.r);
        frame.set(4 * i + 1, c.g);
        frame.set(4 * i + 2, c.b);
        frame.set(4 * i + 3, 255);
        proof {
            assert(c == pixel_spec(*camera, x as int, y as int));
            assert forall|j: int| 0 <= j < 4 * (i + 1) implies frame@[j] == frame_byte(
                *camera,
                j,
            ) by {
                if 4 * i <= j {
                    assert(j / 4 == i && (j % 4 == j - 4 * i));
                }
            }
        }
        i += 1;
    }
    proof {
        assert(frame@ =~= frame_spec(*camera));
    }
}

/// Rendering is deterministic: any two frames drawn for the same camera
/// hold identical bytes.
pub proof fn lemma_draw_deterministic(f1: Seq<u8>, f2: Seq<u8>, cam: Camera)
    requires
        f1 == frame_spec(cam),
        f2 == frame_spec(cam),
    ensures
        f1 == f2,
{
}

/// The corner pixels reach the extremes of the viewport: pixel (0, 0)
/// maps to coordinates (0, 0) and pixel (WIDTH-1, HEIGHT-1) to
/// (SCALE, SCALE), and their bytes in the frame are the shaded colors
/// of exactly those corner rays.
pub proof fn lemma_corner_pixels(cam: Camera)
    requires
        cam.wf(),
    ensures
        pixel_coord_spec(0, WIDTH as int) == 0,
        pixel_coord_spec(WIDTH - 1, WIDTH as int) == SCALE,
        pixel_coord_spec(0, HEIGHT as int) == 0,
        pixel_coord_spec(HEIGHT - 1, HEIGHT as int) == SCALE,
        frame_spec(cam)[0] == ray_color_spec(
            cam.origin,
            scene_sphere_spec(),
            sky_gradient_spec(),
            cam.direction_spec(0, 0),
        ).r,
        frame_spec(cam)[1] == ray_color_spec(
            cam.origin,
            scene_sphere_spec(),
            sky_gradient_spec(),
            cam.direction_spec(0, 0),
        ).g,
        frame_spec(cam)[2] == ray_color_spec(
            cam.origin,
            scene_sphere_spec(),
            sky_gradient_spec(),
            cam.direction_spec(0, 0),
        ).b,
        frame_spec(cam)[3] == 255,
        frame_spec(cam)[4 * (WIDTH * HEIGHT - 1)] == ray_color_spec(
            cam.origin,
            scene_sphere_spec(),
            sky_gradient_spec(),
            cam.direction_spec(SCALE as int, SCALE as int),
        ).r,
        frame_spec(cam)[4 * (WIDTH * HEIGHT - 1) + 1] == ray_color_spec(
            cam.origin,
            scene_sphere_spec(),
            sky_gradient_spec(),
            cam.direction_spec(SCALE as int, SCALE as int),
        ).g,
        frame_spec(cam)[4 * (WIDTH * HEIGHT - 1) + 2] == ray_color_spec(
            cam.origin,
            scene_sphere_spec(),
            sky_gradient_spec(),
            cam.direction_spec(SCALE as int, SCALE as int),
        ).b,
        frame_spec(cam)[4 * (WIDTH * HEIGHT - 1) + 3] == 255,
{
    lemma_div_multiples_vanish(SCALE as int, WIDTH - 1);
    lemma_mul_is_commutative(WIDTH - 1, SCALE as int);
    lemma_div_multiples_vanish(SCALE as int, HEIGHT - 1);
    lemma_mul_is_commutative(HEIGHT - 1, SCALE as int);
}

} // verus!
