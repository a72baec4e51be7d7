use vstd::prelude::*;
use vstd::arithmetic::div_mod::{lemma_div_is_ordered, lemma_div_multiples_vanish};
use vstd::arithmetic::mul::lemma_mul_inequality;
use crate::fixed::{
    div_trunc, div_wide, is_isqrt, isqrt, mul_wide, sqrt_floor, COORD_MAX, SCALE,
};

verus! {

/// Largest coordinate magnitude accepted by `length` and `normalized`;
/// wide enough for every intermediate point of the shading pipeline.
pub const NORM_MAX: i64 = 1152921504606846976;

/// Largest coordinate magnitude accepted by `dot_prod` and `cross_prod`.
pub const DOT_MAX: i64 = 67108864;

/// A three-component vector in fixed-point world coordinates; also used
/// untyped for points and colors, as the callers see fit.
#[derive(Clone, Copy, Debug, PartialEq, Eq, Structural)]
pub struct Vec3 {
    pub x: i64,
    pub y: i64,
    pub z: i64,
}

impl Vec3 {
    /// Every component lies within `m` in magnitude.
    pub open spec fn bounded(self, m: int) -> bool {
        &&& -m <= self.x <= m
        &&& -m <= self.y <= m
        &&& -m <= self.z <= m
    }

    pub open spec fn in_range(self) -> bool {
        self.bounded(COORD_MAX as int)
    }

    /// Squared Euclidean norm, at squared scale.
    pub open spec fn norm_sq(self) -> int {
        self.x * self.x + self.y * self.y + self.z * self.z
    }

    /// Euclidean norm in fixed-point units.
    pub open spec fn length_spec(self) -> int {
        sqrt_floor(self.norm_sq())
    }

    /// Each component divided by the length, at fixed-point scale.
    pub open spec fn normalized_spec(self) -> Vec3 {
        Vec3 {
            x: div_trunc(self.x * SCALE, self.length_spec()) as i64,
            y: div_trunc(self.y * SCALE, self.length_spec()) as i64,
            z: div_trunc(self.z * SCALE, self.length_spec()) as i64,
        }
    }

    pub fn new(x: i64, y: i64, z: i64) -> (r: Self)
        ensures
            r == (Vec3 { x, y, z }),
    {
        Self { x, y, z }
    }

    /// Euclidean norm: the rounded-down square root of `x*x + y*y + z*z`.
    pub fn length(&self) -> (r: i64)
        requires
            self.bounded(NORM_MAX as int),
        ensures
            r == self.length_spec(),
            is_isqrt(self.norm_sq(), r as int),
            0 <= r <= 2 * NORM_MAX,
    {
        let q: i128 = norm_sq_wide(self);
        let root: u64 = isqrt(q as u128);
        proof {
            lemma_root_lt(self.norm_sq(), root as int, 2 * NORM_MAX as int);
        }
        root as i64
    }

    /// The vector scaled to unit length, component-wise
    /// `v * SCALE / length(v)` with rounding toward zero.  A zero vector
    /// has no direction, so it is excluded here; `render` decides the
    /// degenerate case explicitly.
    pub fn normalized(&self) -> (r: Vec3)
        requires
            self.bounded(NORM_MAX as int),
            1 <= self.norm_sq(),
        ensures
            r == self.normalized_spec(),
            r.bounded(SCALE as int),
    {
        let q: i128 = norm_sq_wide(self);
        let len: u64 = isqrt(q as u128);
        proof {
            assert(q as u128 as int == self.norm_sq());
            crate::fixed::lemma_isqrt_pos(self.norm_sq(), len as int);
            lemma_sq_bound(self.x as int, NORM_MAX as int);
            lemma_sq_bound(self.y as int, NORM_MAX as int);
            lemma_sq_bound(self.z as int, NORM_MAX as int);
            lemma_component_le_root(self.x as int, self.norm_sq(), len as int);
            lemma_component_le_root(self.y as int, self.norm_sq(), len as int);
            lemma_component_le_root(self.z as int, self.norm_sq(), len as int);
            lemma_scaled_div_bounded(self.x as int, len as int);
            lemma_scaled_div_bounded(self.y as int, len as int);
            lemma_scaled_div_bounded(self.z as int, len as int);
        }
        let nx: i128 = div_wide(mul_wide(self.x, SCALE), len as i128);
        let ny: i128 = div_wide(mul_wide(self.y, SCALE), len as i128);
        let nz: i128 = div_wide(mul_wide(self.z, SCALE), len as i128);
        Vec3 { x: nx as i64, y: ny as i64, z: nz as i64 }
    }
}

/// The three-term dot product, rescaled to fixed-point units:
/// `(u.x*v.x + u.y*v.y + u.z*v.z) / SCALE`, rounded toward zero.  All
/// three terms are products; no term degenerates to an addition.
pub open spec fn dot_spec(u: Vec3, v: Vec3) -> int {
    div_trunc(u.x * v.x + u.y * v.y + u.z * v.z, SCALE as int)
}

/// Right-handed cross product components, rescaled to fixed-point units.
pub open spec fn cross_x(u: Vec3, v: Vec3) -> int {
    div_trunc(u.y * v.z - v.y * u.z, SCALE as int)
}

pub open spec fn cross_y(u: Vec3, v: Vec3) -> int {
    div_trunc(u.z * v.x - v.z * u.x, SCALE as int)
}

pub open spec fn cross_z(u: Vec3, v: Vec3) -> int {
    div_trunc(u.x * v.y - v.x * u.y, SCALE as int)
}

pub open spec fn cross_spec(u: Vec3, v: Vec3) -> Vec3 {
    Vec3 { x: cross_x(u, v) as i64, y: cross_y(u, v) as i64, z: cross_z(u, v) as i64 }
}

/// Dot product of two bounded vectors; exactly `dot_spec`.
pub fn dot_prod(u: &Vec3, v: &Vec3) -> (r: i64)
    requires
        u.bounded(DOT_MAX as int),
        v.bounded(DOT_MAX as int),
    ensures
        r == dot_spec(*u, *v),
{
    proof {
        lemma_prod_bound(u.x as int, v.x as int, DOT_MAX as int);
        lemma_prod_bound(u.y as int, v.y as int, DOT_MAX as int);
        lemma_prod_bound(u.z as int, v.z as int, DOT_MAX as int);
    }
    let s: i128 = mul_wide(u.x, v.x) + mul_wide(u.y, v.y) + mul_wide(u.z, v.z);
    proof {
        crate::fixed::lemma_div_trunc_magnitude(s as int, SCALE as int);
    }
    div_wide(s, SCALE as i128) as i64
}

/// Cross product of two bounded vectors; exactly `cross_spec`.
pub fn cross_prod(u: &Vec3, v: &Vec3) -> (r: Vec3)
    requires
        u.bounded(DOT_MAX as int),
        v.bounded(DOT_MAX as int),
    ensures
        r == cross_spec(*u, *v),
{
    proof {
        lemma_prod_bound(u.y as int, v.z as int, DOT_MAX as int);
        lemma_prod_bound(v.y as int, u.z as int, DOT_MAX as int);
        lemma_prod_bound(u.z as int, v.x as int, DOT_MAX as int);
        lemma_prod_bound(v.z as int, u.x as int, DOT_MAX as int);
        lemma_prod_bound(u.x as int, v.y as int, DOT_MAX as int);
        lemma_prod_bound(v.x as int, u.y as int, DOT_MAX as int);
        crate::fixed::lemma_div_trunc_magnitude(
            u.y * v.z - v.y * u.z,
            SCALE as int,
        );
        crate::fixed::lemma_div_trunc_magnitude(
            u.z * v.x - v.z * u.x,
            SCALE as int,
        );
        crate::fixed::lemma_div_trunc_magnitude(
            u.x * v.y - v.x * u.y,
            SCALE as int,
        );
    }
    let rx: i128 = div_wide(mul_wide(u.y, v.z) - mul_wide(v.y, u.z), SCALE as i128);
    let ry: i128 = div_wide(mul_wide(u.z, v.x) - mul_wide(v.z, u.x), SCALE as i128);
    let rz: i128 = div_wide(mul_wide(u.x, v.y) - mul_wide(v.x, u.y), SCALE as i128);
    Vec3 { x: rx as i64, y: ry as i64, z: rz as i64 }
}

/// The cross product is anti-commutative: swapping the arguments negates
/// every component exactly.
pub proof fn lemma_cross_antisymmetric(u: Vec3, v: Vec3)
    ensures
        cross_x(v, u) == -cross_x(u, v),
        cross_y(v, u) == -cross_y(u, v),
        cross_z(v, u) == -cross_z(u, v),
{
    lemma_div_trunc_odd(u.y * v.z - v.y * u.z, SCALE as int);
    lemma_div_trunc_odd(u.z * v.x - v.z * u.x, SCALE as int);
    lemma_div_trunc_odd(u.x * v.y - v.x * u.y, SCALE as int);
}

/// `div_trunc` is an odd function of the dividend.
pub proof fn lemma_div_trunc_odd(a: int, d: int)
    requires
        1 <= d,
    ensures
        div_trunc(-a, d) == -div_trunc(a, d),
{
}

/// Normalizing brings the length to one unit, up to rounding: for a
/// nonzero in-range vector, the length of the normalized vector lies
/// within [SCALE - 4, SCALE + SCALE/length + 1].  The relative error
/// shrinks as the vector grows; `lemma_normalized_unit_length_long`
/// gives the two-sided constant bound for vectors of at least unit
/// length.
pub proof fn lemma_normalized_unit_length(v: Vec3)
    requires
        v.bounded(NORM_MAX as int),
        1 <= v.norm_sq(),
    ensures
        SCALE - 4 <= v.normalized_spec().length_spec(),
        v.normalized_spec().length_spec() <= SCALE + (SCALE as int) / v.length_spec() + 1,
        1 <= v.length_spec(),
{
    let q = v.norm_sq();
    crate::fixed::lemma_sqrt_floor_exists(q);
    let len = v.length_spec();
    crate::fixed::lemma_isqrt_pos(q, len);
    lemma_sq_bound(v.x as int, NORM_MAX as int);
    lemma_sq_bound(v.y as int, NORM_MAX as int);
    lemma_sq_bound(v.z as int, NORM_MAX as int);
    lemma_component_le_root(v.x as int, q, len);
    lemma_component_le_root(v.y as int, q, len);
    lemma_component_le_root(v.z as int, q, len);
    lemma_scaled_div_bounded(v.x as int, len);
    lemma_scaled_div_bounded(v.y as int, len);
    lemma_scaled_div_bounded(v.z as int, len);
    let nx = div_trunc(v.x * SCALE, len);
    let ny = div_trunc(v.y * SCALE, len);
    let nz = div_trunc(v.z * SCALE, len);
    assert(v.normalized_spec().x == nx && v.normalized_spec().y == ny && v.normalized_spec().z
        == nz);
    lemma_norm_component_sq(v.x as int, len);
    lemma_norm_component_sq(v.y as int, len);
    lemma_norm_component_sq(v.z as int, len);
    let qn = v.normalized_spec().norm_sq();
    assert(qn == nx * nx + ny * ny + nz * nz);
    assert(q * (SCALE * SCALE) - 6 * SCALE * (len * len) <= qn * (len * len) <= q * (SCALE
        * SCALE) + 3 * (len * len)) by (nonlinear_arith)
        requires
            qn == nx * nx + ny * ny + nz * nz,
            q == v.x * v.x + v.y * v.y + v.z * v.z,
            v.x * v.x * SCALE * SCALE - 2 * SCALE * (len * len) <= nx * nx * (len * len) <= v.x
                * v.x * SCALE * SCALE + len * len,
            v.y * v.y * SCALE * SCALE - 2 * SCALE * (len * len) <= ny * ny * (len * len) <= v.y
                * v.y * SCALE * SCALE + len * len,
            v.z * v.z * SCALE * SCALE - 2 * SCALE * (len * len) <= nz * nz * (len * len) <= v.z
                * v.z * SCALE * SCALE + len * len,
    ;
    // Lower bound: q >= len * len pushes qn above SCALE^2 - 6*SCALE.
    assert((SCALE * SCALE - 6 * SCALE) <= qn) by (nonlinear_arith)
        requires
            q * (SCALE * SCALE) - 6 * SCALE * (len * len) <= qn * (len * len),
            len * len <= q,
            1 <= len,
    ;
    // Upper bound: q < (len + 1)^2 keeps qn under (SCALE + d)^2 where
    // d exceeds SCALE/len by two.
    vstd::arithmetic::div_mod::lemma_fundamental_div_mod(SCALE as int, len);
    vstd::arithmetic::div_mod::lemma_mod_bound(SCALE as int, len);
    let d = (SCALE as int) / len + 2;
    assert(d * len >= SCALE + len + 1) by (nonlinear_arith)
        requires
            d == (SCALE as int) / len + 2,
            SCALE == len * ((SCALE as int) / len) + (SCALE as int) % len,
            0 <= (SCALE as int) % len < len,
            1 <= len,
    ;
    assert(2 <= d) by {
        lemma_div_is_ordered(0, SCALE as int, len);
    }
    assert(qn < (SCALE + d) * (SCALE + d)) by (nonlinear_arith)
        requires
            qn * (len * len) <= q * (SCALE * SCALE) + 3 * (len * len),
            q < (len + 1) * (len + 1),
            d * len >= SCALE + len + 1,
            2 <= d,
            1 <= len,
            0 <= qn,
            SCALE == 65536,
    ;
    // Convert the bounds on qn into bounds on its rounded-down root.
    crate::fixed::lemma_sqrt_floor_exists(qn);
    let ln = v.normalized_spec().length_spec();
    assert((SCALE - 4) * (SCALE - 4) <= qn);
    assert(SCALE - 4 <= ln) by (nonlinear_arith)
        requires
            is_isqrt(qn, ln),
            (SCALE - 4) * (SCALE - 4) <= qn,
            SCALE == 65536,
    ;
    lemma_root_lt(qn, ln, SCALE + d);
}

/// For a vector at least one world unit long, the normalized length is
/// within [SCALE - 4, SCALE + 2]: one unit up to a relative error below
/// one 16384th.
pub proof fn lemma_normalized_unit_length_long(v: Vec3)
    requires
        v.bounded(NORM_MAX as int),
        SCALE * SCALE <= v.norm_sq(),
    ensures
        SCALE - 4 <= v.normalized_spec().length_spec() <= SCALE + 2,
{
    lemma_normalized_unit_length(v);
    crate::fixed::lemma_sqrt_floor_exists(v.norm_sq());
    let len = v.length_spec();
    assert(SCALE <= len) by (nonlinear_arith)
        requires
            is_isqrt(v.norm_sq(), len),
            SCALE * SCALE <= v.norm_sq(),
            SCALE == 65536,
    ;
    lemma_div_is_ordered(SCALE as int, len, len);
    lemma_div_multiples_vanish(1, len);
}

/// One normalization step squared: the scaled component divided by the
/// length, squared and multiplied back by the squared length, differs
/// from the scaled squared component by less than rounding allows.
proof fn lemma_norm_component_sq(x: int, len: int)
    requires
        1 <= len,
        -len <= x <= len,
    ensures
        x * x * SCALE * SCALE - 2 * SCALE * (len * len) <= div_trunc(x * SCALE, len) * div_trunc(
            x * SCALE,
            len,
        ) * (len * len),
        div_trunc(x * SCALE, len) * div_trunc(x * SCALE, len) * (len * len) <= x * x * SCALE
            * SCALE + len * len,
{
    crate::fixed::lemma_div_trunc_rem(x * SCALE, len);
    let n = div_trunc(x * SCALE, len);
    let e = x * SCALE - n * len;
    assert(x * x * SCALE * SCALE - 2 * SCALE * (len * len) <= n * n * (len * len) <= x * x
        * SCALE * SCALE + len * len) by (nonlinear_arith)
        requires
            n * len == x * SCALE - e,
            -len < e < len,
            x * SCALE >= 0 ==> 0 <= e,
            x * SCALE < 0 ==> e <= 0,
            -len <= x <= len,
            1 <= len,
            SCALE == 65536,
    ;
}

/// Squared sum of the components, in `i128`.
fn norm_sq_wide(v: &Vec3) -> (q: i128)
    requires
        v.bounded(NORM_MAX as int),
    ensures
        q == v.norm_sq(),
        0 <= q <= 3 * NORM_MAX * NORM_MAX,
{
    proof {
        lemma_sq_bound(v.x as int, NORM_MAX as int);
        lemma_sq_bound(v.y as int, NORM_MAX as int);
        lemma_sq_bound(v.z as int, NORM_MAX as int);
    }
    mul_wide(v.x, v.x) + mul_wide(v.y, v.y) + mul_wide(v.z, v.z)
}

/// A square is nonnegative and bounded by the square of the bound.
pub proof fn lemma_sq_bound(x: int, m: int)
    by (nonlinear_arith)
    requires
        -m <= x <= m,
        0 <= m,
    ensures
        0 <= x * x <= m * m,
{
}

/// A product of two bounded factors is bounded by the product of the bounds.
pub proof fn lemma_prod_bound(a: int, b: int, m: int)
    by (nonlinear_arith)
    requires
        -m <= a <= m,
        -m <= b <= m,
        0 <= m,
    ensures
        -(m * m) <= a * b <= m * m,
{
}

/// Like `lemma_prod_bound`, with a bound of its own for each factor.
pub proof fn lemma_prod_bound2(a: int, b: int, ma: int, mb: int)
    by (nonlinear_arith)
    requires
        -ma <= a <= ma,
        -mb <= b <= mb,
        0 <= ma,
        0 <= mb,
    ensures
        -(ma * mb) <= a * b <= ma * mb,
{
}

/// The rescaled dot product, multiplied back by the scale, differs from
/// the raw sum of products by less than one scale unit; so it is bounded
/// by three squared bounds plus one unit.
pub proof fn lemma_dot_bound(u: Vec3, v: Vec3, m: int)
    requires
        u.bounded(m),
        v.bounded(m),
        0 <= m,
    ensures
        -(3 * (m * m) + SCALE) <= dot_spec(u, v) * SCALE <= 3 * (m * m) + SCALE,
{
    lemma_prod_bound(u.x as int, v.x as int, m);
    lemma_prod_bound(u.y as int, v.y as int, m);
    lemma_prod_bound(u.z as int, v.z as int, m);
    crate::fixed::lemma_div_trunc_rem(
        u.x * v.x + u.y * v.y + u.z * v.z,
        SCALE as int,
    );
}

/// The rounded-down root of a value under `m * m` stays under `m`.
pub proof fn lemma_root_lt(q: int, root: int, m: int)
    by (nonlinear_arith)
    requires
        is_isqrt(q, root),
        q < m * m,
        0 <= m,
    ensures
        0 <= root < m,
{
}

/// No component exceeds the rounded-down root of the squared norm.
pub proof fn lemma_component_le_root(x: int, q: int, len: int)
    by (nonlinear_arith)
    requires
        x * x <= q,
        is_isqrt(q, len),
    ensures
        -len <= x <= len,
{
}

/// Scaling a component within `len` and dividing by `len` stays within
/// one fixed-point unit.
pub proof fn lemma_scaled_div_bounded(x: int, len: int)
    requires
        1 <= len,
        -len <= x <= len,
    ensures
        -(SCALE as int) <= div_trunc(x * SCALE, len) <= SCALE,
{
    lemma_div_multiples_vanish(SCALE as int, len);
    if x >= 0 {
        lemma_mul_inequality(0, x, SCALE as int);
        lemma_mul_inequality(x, len, SCALE as int);
        lemma_div_is_ordered(x * SCALE, len * SCALE, len);
        lemma_div_is_ordered(0, x * SCALE, len);
    } else {
        lemma_mul_inequality(0, -x, SCALE as int);
        lemma_mul_inequality(-x, len, SCALE as int);
        assert((-x) * SCALE == -(x * SCALE)) by (nonlinear_arith);
        lemma_div_is_ordered(-(x * SCALE), len * SCALE, len);
        lemma_div_is_ordered(0, -(x * SCALE), len);
    }
}

} // verus!
