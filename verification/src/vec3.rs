//! Three-component integer vectors and rays.
//!
//! Coordinates are plain `i64` "units"; the embedding application decides
//! how many units make one world unit. Unit-scale quantities (normalized
//! directions, colours, surface parameters) use `Q`-scaled fixed point.

use vstd::prelude::*;

verus! {

/// Fixed-point scale for unit-magnitude quantities: values are stored as
/// `round(x * Q)`.
pub const Q: i64 = 65536; // 2^16

/// Fixed-point scale of the ray parameter `t`: a hit distance is stored as
/// `floor(t * T_SCALE)`.
pub const T_SCALE: i128 = 0x100000000; // 2^32

/// Magnitude bound for the components of any vector the tracer works with.
pub const VEC_BOUND: i64 = 0x8000000; // 2^27

/// A three-component integer vector.
#[derive(Debug, Clone, Copy, PartialEq, Eq, Structural)]
pub struct Vec3 {
    pub x: i64,
    pub y: i64,
    pub z: i64,
}

/// Points and vectors share one representation, as in most tracers.
pub type Point3 = Vec3;

/// All three components have magnitude at most `b`.
pub open spec fn in_bounds(v: Vec3, b: int) -> bool {
    -b <= v.x <= b && -b <= v.y <= b && -b <= v.z <= b
}

/// The dot product, as an unbounded integer.
pub open spec fn spec_dot(a: Vec3, b: Vec3) -> int {
    a.x * b.x + a.y * b.y + a.z * b.z
}

/// The cross product, componentwise over unbounded integers.
pub open spec fn spec_cross_x(a: Vec3, b: Vec3) -> int {
    a.y * b.z - a.z * b.y
}

pub open spec fn spec_cross_y(a: Vec3, b: Vec3) -> int {
    a.z * b.x - a.x * b.z
}

pub open spec fn spec_cross_z(a: Vec3, b: Vec3) -> int {
    a.x * b.y - a.y * b.x
}

impl Vec3 {
    pub fn new(x: i64, y: i64, z: i64) -> (r: Vec3)
        ensures
            r == (Vec3 { x, y, z }),
    {
        Vec3 { x, y, z }
    }

    pub fn zero() -> (r: Vec3)
        ensures
            r == (Vec3 { x: 0, y: 0, z: 0 }),
    {
        Vec3 { x: 0, y: 0, z: 0 }
    }

    pub fn add(self, o: Vec3) -> (r: Vec3)
        requires
            in_bounds(self, 0x2000000000000000),
            in_bounds(o, 0x2000000000000000),
        ensures
            r.x == self.x + o.x,
            r.y == self.y + o.y,
            r.z == self.z + o.z,
    {
        Vec3 { x: self.x + o.x, y: self.y + o.y, z: self.z + o.z }
    }

    pub fn sub(self, o: Vec3) -> (r: Vec3)
        requires
            in_bounds(self, 0x2000000000000000),
            in_bounds(o, 0x2000000000000000),
        ensures
            r.x == self.x - o.x,
            r.y == self.y - o.y,
            r.z == self.z - o.z,
    {
        Vec3 { x: self.x - o.x, y: self.y - o.y, z: self.z - o.z }
    }

    pub fn neg(self) -> (r: Vec3)
        requires
            in_bounds(self, 0x2000000000000000),
        ensures
            r.x == -self.x,
            r.y == -self.y,
            r.z == -self.z,
    {
        Vec3 { x: -self.x, y: -self.y, z: -self.z }
    }

    /// The dot product, exact in `i128`.
    pub fn dot(self, o: Vec3) -> (r: i128)
        requires
            in_bounds(self, 0x1000000000000000),
            in_bounds(o, 0x1000000000000000),
        ensures
            r == spec_dot(self, o),
    {
        proof {
            lemma_prod_bound(self.x as int, o.x as int, 0x1000000000000000);
            lemma_prod_bound(self.y as int, o.y as int, 0x1000000000000000);
            lemma_prod_bound(self.z as int, o.z as int, 0x1000000000000000);
        }
        (self.x as i128) * (o.x as i128) + (self.y as i128) * (o.y as i128) + (self.z as i128) * (
        o.z as i128)
    }

    /// The squared Euclidean length, exact in `i128`.
    pub fn square_length(self) -> (r: i128)
        requires
            in_bounds(self, 0x1000000000000000),
        ensures
            r == spec_dot(self, self),
            r >= 0,
    {
        proof {
            lemma_dot_self_nonneg(self);
        }
        self.dot(self)
    }

    /// The cross product. The component bound keeps every entry within `i64`.
    pub fn cross(self, o: Vec3) -> (r: Vec3)
        requires
            in_bounds(self, 0x40000000),
            in_bounds(o, 0x40000000),
        ensures
            r.x == spec_cross_x(self, o),
            r.y == spec_cross_y(self, o),
            r.z == spec_cross_z(self, o),
    {
        proof {
            lemma_prod_bound(self.y as int, o.z as int, 0x40000000);
            lemma_prod_bound(self.z as int, o.y as int, 0x40000000);
            lemma_prod_bound(self.z as int, o.x as int, 0x40000000);
            lemma_prod_bound(self.x as int, o.z as int, 0x40000000);
            lemma_prod_bound(self.x as int, o.y as int, 0x40000000);
            lemma_prod_bound(self.y as int, o.x as int, 0x40000000);
        }
        let x = (self.y as i128) * (o.z as i128) - (self.z as i128) * (o.y as i128);
        let y = (self.z as i128) * (o.x as i128) - (self.x as i128) * (o.z as i128);
        let z = (self.x as i128) * (o.y as i128) - (self.y as i128) * (o.x as i128);
        Vec3 { x: x as i64, y: y as i64, z: z as i64 }
    }

    /// Multiply every component by `k`.
    pub fn scale(self, k: i64) -> (r: Vec3)
        requires
            in_bounds(self, 0x40000000),
            -0x40000000 <= k <= 0x40000000,
        ensures
            r.x == self.x * k,
            r.y == self.y * k,
            r.z == self.z * k,
    {
        proof {
            lemma_prod_bound(self.x as int, k as int, 0x40000000);
            lemma_prod_bound(self.y as int, k as int, 0x40000000);
            lemma_prod_bound(self.z as int, k as int, 0x40000000);
        }
        let x = (self.x as i128) * (k as i128);
        let y = (self.y as i128) * (k as i128);
        let z = (self.z as i128) * (k as i128);
        Vec3 { x: x as i64, y: y as i64, z: z as i64 }
    }

    /// Read a component by axis.
    pub fn axis(self, axis: crate::aaplane::Axis) -> (r: i64)
        ensures
            r == spec_axis(self, axis),
    {
        match axis {
            crate::aaplane::Axis::X => self.x,
            crate::aaplane::Axis::Y => self.y,
            crate::aaplane::Axis::Z => self.z,
        }
    }
}

/// The component of `v` on `axis`.
pub open spec fn spec_axis(v: Vec3, axis: crate::aaplane::Axis) -> i64 {
    match axis {
        crate::aaplane::Axis::X => v.x,
        crate::aaplane::Axis::Y => v.y,
        crate::aaplane::Axis::Z => v.z,
    }
}

/// A product of two factors bounded by `b` is bounded by `b * b`.
pub proof fn lemma_prod_bound(a: int, c: int, b: int)
    requires
        0 <= b,
        -b <= a <= b,
        -b <= c <= b,
    ensures
        -(b * b) <= a * c <= b * b,
{
    assert(-(b * b) <= a * c <= b * b) by (nonlinear_arith)
        requires
            0 <= b,
            -b <= a <= b,
            -b <= c <= b,
    ;
}

/// A product bounded factorwise: `|a| <= ba`, `|c| <= bc` gives
/// `|a * c| <= ba * bc`.
pub proof fn lemma_prod_bound2(a: int, c: int, ba: int, bc: int)
    requires
        0 <= ba,
        0 <= bc,
        -ba <= a <= ba,
        -bc <= c <= bc,
    ensures
        -(ba * bc) <= a * c <= ba * bc,
{
    assert(-(ba * bc) <= a * c <= ba * bc) by (nonlinear_arith)
        requires
            0 <= ba,
            0 <= bc,
            -ba <= a <= ba,
            -bc <= c <= bc,
    ;
}

/// A dot product bounded factorwise.
pub proof fn lemma_dot_bound2(a: Vec3, c: Vec3, ba: int, bc: int)
    requires
        0 <= ba,
        0 <= bc,
        in_bounds(a, ba),
        in_bounds(c, bc),
    ensures
        -3 * (ba * bc) <= spec_dot(a, c) <= 3 * (ba * bc),
{
    lemma_prod_bound2(a.x as int, c.x as int, ba, bc);
    lemma_prod_bound2(a.y as int, c.y as int, ba, bc);
    lemma_prod_bound2(a.z as int, c.z as int, ba, bc);
}

/// A cross product bounded factorwise, componentwise.
pub proof fn lemma_cross_bound(a: Vec3, c: Vec3, ba: int, bc: int)
    requires
        0 <= ba,
        0 <= bc,
        in_bounds(a, ba),
        in_bounds(c, bc),
    ensures
        -2 * (ba * bc) <= spec_cross_x(a, c) <= 2 * (ba * bc),
        -2 * (ba * bc) <= spec_cross_y(a, c) <= 2 * (ba * bc),
        -2 * (ba * bc) <= spec_cross_z(a, c) <= 2 * (ba * bc),
{
    lemma_prod_bound2(a.x as int, c.x as int, ba, bc);
    lemma_prod_bound2(a.y as int, c.y as int, ba, bc);
    lemma_prod_bound2(a.z as int, c.z as int, ba, bc);
    lemma_prod_bound2(a.x as int, c.y as int, ba, bc);
    lemma_prod_bound2(a.y as int, c.x as int, ba, bc);
    lemma_prod_bound2(a.x as int, c.z as int, ba, bc);
    lemma_prod_bound2(a.z as int, c.x as int, ba, bc);
    lemma_prod_bound2(a.y as int, c.z as int, ba, bc);
    lemma_prod_bound2(a.z as int, c.y as int, ba, bc);
}

/// A dot product of a vector with itself is nonnegative.
pub proof fn lemma_dot_self_nonneg(v: Vec3)
    ensures
        spec_dot(v, v) >= 0,
{
    assert(v.x * v.x >= 0) by (nonlinear_arith);
    assert(v.y * v.y >= 0) by (nonlinear_arith);
    assert(v.z * v.z >= 0) by (nonlinear_arith);
}

/// A nonzero vector has a positive dot product with itself.
pub proof fn lemma_dot_self_pos(v: Vec3)
    requires
        v != (Vec3 { x: 0, y: 0, z: 0 }),
    ensures
        spec_dot(v, v) >= 1,
{
    lemma_dot_self_nonneg(v);
    assert(v.x != 0 ==> v.x * v.x >= 1) by (nonlinear_arith);
    assert(v.y != 0 ==> v.y * v.y >= 1) by (nonlinear_arith);
    assert(v.z != 0 ==> v.z * v.z >= 1) by (nonlinear_arith);
    assert(v.x * v.x >= 0 && v.y * v.y >= 0 && v.z * v.z >= 0) by (nonlinear_arith);
    assert(v.x != 0 || v.y != 0 || v.z != 0);
}

/// A ray `origin + direction * t`, parametrized by the scalar `t >= 0`.
#[derive(Debug, Clone, Copy)]
pub struct Ray {
    pub origin: Point3,
    pub direction: Vec3,
}

/// A well-formed ray: both vectors within the tracer's coordinate bound.
pub open spec fn ray_wf(r: Ray) -> bool {
    in_bounds(r.origin, VEC_BOUND as int) && in_bounds(r.direction, VEC_BOUND as int)
}

impl Ray {
    pub fn new(origin: Point3, direction: Vec3) -> (r: Ray)
        ensures
            r.origin == origin,
            r.direction == direction,
    {
        Ray { origin, direction }
    }

    pub fn get_origin(&self) -> (r: Point3)
        ensures
            r == self.origin,
    {
        self.origin
    }

    pub fn get_direction(&self) -> (r: Vec3)
        ensures
            r == self.direction,
    {
        self.direction
    }

    /// The point `origin + direction * (t / T_SCALE)`, each component rounded
    /// down to the unit grid and clamped into the coordinate bound.
    pub fn at(&self, t: i128) -> (p: Point3)
        requires
            ray_wf(*self),
            -0x1000000000000000000 <= t <= 0x1000000000000000000,  // |t| <= 2^72
        ensures
            p == spec_ray_at(*self, t as int),
            in_bounds(p, VEC_BOUND as int),
    {
        let x = at_coord(self.origin.x, self.direction.x, t);
        let y = at_coord(self.origin.y, self.direction.y, t);
        let z = at_coord(self.origin.z, self.direction.z, t);
        Vec3 { x, y, z }
    }
}

/// One coordinate of `origin + direction * (t / T_SCALE)`, rounded down.
pub open spec fn spec_at_coord(o: int, d: int, t: int) -> int {
    o + (d * t) / (T_SCALE as int)
}

/// The point a ray reaches at parameter `t`, as [`Ray::at`] computes it.
pub open spec fn spec_ray_at(r: Ray, t: int) -> Point3 {
    Point3 {
        x: clamp_coord(spec_at_coord(r.origin.x as int, r.direction.x as int, t)) as i64,
        y: clamp_coord(spec_at_coord(r.origin.y as int, r.direction.y as int, t)) as i64,
        z: clamp_coord(spec_at_coord(r.origin.z as int, r.direction.z as int, t)) as i64,
    }
}

/// A dot product of vectors bounded by `b` is bounded by `3 * b * b`.
pub proof fn lemma_dot_bound(a: Vec3, c: Vec3, b: int)
    requires
        0 <= b,
        in_bounds(a, b),
        in_bounds(c, b),
    ensures
        -3 * (b * b) <= spec_dot(a, c) <= 3 * (b * b),
{
    lemma_prod_bound(a.x as int, c.x as int, b);
    lemma_prod_bound(a.y as int, c.y as int, b);
    lemma_prod_bound(a.z as int, c.z as int, b);
}

/// Clamp a coordinate into the tracer's coordinate bound.
pub open spec fn clamp_coord(c: int) -> int {
    if c < -(VEC_BOUND as int) {
        -(VEC_BOUND as int)
    } else if c > VEC_BOUND as int {
        VEC_BOUND as int
    } else {
        c
    }
}

fn at_coord(o: i64, d: i64, t: i128) -> (r: i64)
    requires
        -VEC_BOUND <= o <= VEC_BOUND,
        -VEC_BOUND <= d <= VEC_BOUND,
        -0x1000000000000000000 <= t <= 0x1000000000000000000,
    ensures
        r as int == clamp_coord(spec_at_coord(o as int, d as int, t as int)),
        -VEC_BOUND <= r <= VEC_BOUND,
{
    proof {
        assert((d as i128) * t <= 0x8000000000000000000000000i128 && (d as i128) * t
            >= -0x8000000000000000000000000i128) by (nonlinear_arith)
            requires
                -VEC_BOUND <= d <= VEC_BOUND,
                -0x1000000000000000000 <= t <= 0x1000000000000000000,
        ;
    }
    let num: i128 = (d as i128) * t;
    let shifted: i128 = crate::num::div_floor(num, T_SCALE);
    let c: i128 = (o as i128) + shifted;
    let lo: i128 = -(VEC_BOUND as i128);
    let hi: i128 = VEC_BOUND as i128;
    if c < lo {
        -VEC_BOUND
    } else if c > hi {
        VEC_BOUND
    } else {
        c as i64
    }
}

} // verus!
