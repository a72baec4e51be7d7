use vstd::prelude::*;
use vstd::arithmetic::div_mod::{lemma_div_is_ordered, lemma_div_multiples_vanish};
use vstd::arithmetic::mul::lemma_mul_inequality;
use crate::fixed::{div_trunc, div_wide, lemma_div_trunc_exact, mul_wide, COORD_MAX, SCALE};
use crate::math::Vec3;

verus! {

/// Largest accepted ratio of pixel width to pixel height; keeps the
/// viewport width within `COORD_MAX`.
pub const ASPECT_MAX: i64 = 64;

/// A fixed pinhole camera: origin at the world origin, an axis-aligned
/// viewport of world height 2 one focal length down the -z axis.
#[derive(Clone, Copy, Debug, PartialEq, Eq, Structural)]
pub struct Camera {
    pub v_width: i64,
    pub v_height: i64,
    pub focal_length: i64,
    pub origin: Vec3,
    pub horizontal: Vec3,
    pub vertical: Vec3,
    pub ll_corner: Vec3,
}

/// The viewport width for the given pixel dimensions: the aspect ratio
/// times the fixed viewport height of two world units.
pub open spec fn viewport_width(width: int, height: int) -> int {
    2 * ((width * SCALE) / height)
}

impl Camera {
    /// The shape that construction establishes and that never changes
    /// afterwards: fixed origin, axis-aligned basis vectors, and the
    /// lower-left corner half a viewport left and down at focal depth.
    pub open spec fn wf(self) -> bool {
        &&& 0 <= self.v_width <= COORD_MAX
        &&& self.v_width % 2 == 0
        &&& self.v_height == 2 * SCALE
        &&& self.focal_length == SCALE
        &&& self.origin == (Vec3 { x: 0, y: 0, z: 0 })
        &&& self.horizontal == (Vec3 { x: self.v_width, y: 0, z: 0 })
        &&& self.vertical == (Vec3 { x: 0, y: self.v_height, z: 0 })
        &&& 2 * self.ll_corner.x == -self.v_width
        &&& self.ll_corner.y == -SCALE
        &&& self.ll_corner.z == -SCALE
    }

    /// The world-space ray direction toward viewport coordinates (u, v):
    /// `ll_corner + u*horizontal + v*vertical - origin`, with u and v at
    /// fixed-point scale.
    pub open spec fn direction_spec(self, u: int, v: int) -> Vec3 {
        Vec3 {
            x: (self.ll_corner.x + div_trunc(u * self.horizontal.x, SCALE as int) + div_trunc(
                v * self.vertical.x,
                SCALE as int,
            ) - self.origin.x) as i64,
            y: (self.ll_corner.y + div_trunc(u * self.horizontal.y, SCALE as int) + div_trunc(
                v * self.vertical.y,
                SCALE as int,
            ) - self.origin.y) as i64,
            z: (self.ll_corner.z + div_trunc(u * self.horizontal.z, SCALE as int) + div_trunc(
                v * self.vertical.z,
                SCALE as int,
            ) - self.origin.z) as i64,
        }
    }

    /// Build the camera for an output image of `width` by `height`
    /// pixels.  The aspect ratio fixes the viewport width; everything
    /// else is the fixed pinhole geometry.
    pub fn new(width: i64, height: i64) -> (r: Self)
        requires
            1 <= height,
            1 <= width,
            width <= ASPECT_MAX * height,
        ensures
            r.v_width == viewport_width(width as int, height as int),
            r.v_height == 2 * SCALE,
            r.focal_length == SCALE,
            r.origin == (Vec3 { x: 0, y: 0, z: 0 }),
            r.horizontal == (Vec3 { x: r.v_width, y: 0, z: 0 }),
            r.vertical == (Vec3 { x: 0, y: (2 * SCALE) as i64, z: 0 }),
            r.ll_corner == (Vec3 {
                x: (-((width * SCALE) / (height as int))) as i64,
                y: (-SCALE) as i64,
                z: (-SCALE) as i64,
            }),
            r.wf(),
    {
        proof {
            lemma_mul_inequality(width as int, ASPECT_MAX * height, SCALE as int);
            assert((ASPECT_MAX * height) * SCALE == height * (ASPECT_MAX * SCALE))
                by (nonlinear_arith);
            lemma_mul_inequality(0, width as int, SCALE as int);
            lemma_div_is_ordered(0, width * SCALE, height as int);
            lemma_div_is_ordered(width * SCALE, height * (ASPECT_MAX * SCALE), height as int);
            lemma_div_multiples_vanish(ASPECT_MAX * SCALE, height as int);
        }
        let aspect: i64 = div_wide(mul_wide(width, SCALE), height as i128) as i64;
        let v_width: i64 = 2 * aspect;
        let v_height: i64 = 2 * SCALE;
        let focal_length: i64 = SCALE;
        let origin = Vec3::new(0, 0, 0);
        let horizontal = Vec3::new(v_width, 0, 0);
        let vertical = Vec3::new(0, v_height, 0);
        let ll_corner = Vec3::new(-aspect, -SCALE, -SCALE);
        Self { v_width, v_height, focal_length, origin, horizontal, vertical, ll_corner }
    }

    /// The ray direction for viewport coordinates (u, v) in [0, SCALE];
    /// exactly `direction_spec`, and always in range with z fixed at the
    /// focal plane.
    pub fn direction(&self, u: i64, v: i64) -> (r: Vec3)
        requires
            self.wf(),
            0 <= u <= SCALE,
            0 <= v <= SCALE,
        ensures
            r == self.direction_spec(u as int, v as int),
            r.in_range(),
            r.z == -SCALE,
            r.norm_sq() >= SCALE * SCALE,
    {
        proof {
            lemma_mul_inequality(0, u as int, self.horizontal.x as int);
            lemma_mul_inequality(u as int, SCALE as int, self.horizontal.x as int);
            lemma_div_is_ordered(0, u * self.horizontal.x, SCALE as int);
            lemma_div_is_ordered(u * self.horizontal.x, SCALE * self.horizontal.x, SCALE as int);
            lemma_div_trunc_exact(self.horizontal.x as int, SCALE as int);
            lemma_mul_inequality(0, v as int, self.vertical.y as int);
            lemma_mul_inequality(v as int, SCALE as int, self.vertical.y as int);
            lemma_div_is_ordered(0, v * self.vertical.y, SCALE as int);
            lemma_div_is_ordered(v * self.vertical.y, SCALE * self.vertical.y, SCALE as int);
            lemma_div_trunc_exact(self.vertical.y as int, SCALE as int);
        }
        let dx: i64 = self.ll_corner.x + div_wide(mul_wide(u, self.horizontal.x), SCALE as i128)
            as i64 - self.origin.x;
        let dy: i64 = self.ll_corner.y + div_wide(mul_wide(v, self.vertical.y), SCALE as i128)
            as i64 - self.origin.y;
        let dz: i64 = self.ll_corner.z - self.origin.z;
        let r = Vec3 { x: dx, y: dy, z: dz };
        proof {
            assert(r.norm_sq() >= SCALE * SCALE) by (nonlinear_arith)
                requires
                    r.z == -SCALE,
                    r.norm_sq() == r.x * r.x + r.y * r.y + r.z * r.z,
            ;
        }
        r
    }
}

/// The two corner directions are exact: (0, 0) gives the lower-left
/// corner offset from the origin, and (1, 1) adds one full horizontal
/// and vertical basis vector to it.
pub proof fn lemma_direction_corners(cam: Camera)
    requires
        cam.wf(),
    ensures
        cam.direction_spec(0, 0) == (Vec3 {
            x: (cam.ll_corner.x - cam.origin.x) as i64,
            y: (cam.ll_corner.y - cam.origin.y) as i64,
            z: (cam.ll_corner.z - cam.origin.z) as i64,
        }),
        cam.direction_spec(SCALE as int, SCALE as int) == (Vec3 {
            x: (cam.ll_corner.x + cam.horizontal.x + cam.vertical.x - cam.origin.x) as i64,
            y: (cam.ll_corner.y + cam.horizontal.y + cam.vertical.y - cam.origin.y) as i64,
            z: (cam.ll_corner.z + cam.horizontal.z + cam.vertical.z - cam.origin.z) as i64,
        }),
{
    lemma_div_trunc_exact(cam.horizontal.x as int, SCALE as int);
    lemma_div_trunc_exact(cam.vertical.y as int, SCALE as int);
}

} // verus!
