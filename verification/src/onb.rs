//! An orthonormal-ish basis around a normal, in `Q`-scaled fixed point.

use crate::num::{is_sqrt_floor, sqrt_floor};
use crate::vec3::{in_bounds, spec_cross_x, spec_cross_y, spec_cross_z, spec_dot, Vec3, Q};
use vstd::prelude::*;

verus! {

/// Normalize into `Q` scale: each component becomes
/// `floor(c * Q / |v|)` with `|v| = floor(sqrt(v . v))`.
pub open spec fn spec_normalize_q(v: Vec3) -> Vec3 {
    let l = sqrt_floor(spec_dot(v, v));
    Vec3 { x: ((v.x * Q) / l) as i64, y: ((v.y * Q) / l) as i64, z: ((v.z * Q) / l) as i64 }
}

/// Bound for vectors fed to the normalizer.
pub const NORM_IN_BOUND: i64 = 0x100000000000; // 2^44

/// A component is bounded by the floor square root of the self dot product.
pub proof fn lemma_component_le_norm(v: Vec3, l: int)
    requires
        is_sqrt_floor(spec_dot(v, v), l),
    ensures
        -l <= v.x <= l,
        -l <= v.y <= l,
        -l <= v.z <= l,
{
    assert(v.x * v.x <= spec_dot(v, v) && v.y * v.y <= spec_dot(v, v) && v.z * v.z <= spec_dot(
        v,
        v,
    )) by (nonlinear_arith);
    lemma_abs_le_sqrt(v.x as int, spec_dot(v, v), l);
    lemma_abs_le_sqrt(v.y as int, spec_dot(v, v), l);
    lemma_abs_le_sqrt(v.z as int, spec_dot(v, v), l);
}

proof fn lemma_abs_le_sqrt(c: int, n: int, l: int)
    requires
        is_sqrt_floor(n, l),
        c * c <= n,
    ensures
        -l <= c <= l,
{
    assert(-l <= c <= l) by (nonlinear_arith)
        requires
            0 <= l,
            c * c <= n,
            n < (l + 1) * (l + 1),
    ;
}

/// Normalize a nonzero vector into unit scale.
pub fn normalize_q(v: Vec3) -> (r: Vec3)
    requires
        in_bounds(v, NORM_IN_BOUND as int),
        v != (Vec3 { x: 0, y: 0, z: 0 }),
    ensures
        r == spec_normalize_q(v),
        in_bounds(r, Q as int),
{
    proof {
        crate::vec3::lemma_dot_bound(v, v, NORM_IN_BOUND as int);
        crate::vec3::lemma_dot_self_pos(v);
    }
    let d = v.dot(v);
    let l = crate::num::isqrt(d as u128) as i128;
    proof {
        crate::num::lemma_sqrt_floor_unique(d as int, l as int, sqrt_floor(d as int));
        lemma_component_le_norm(v, l as int);
        assert(l >= 1) by (nonlinear_arith)
            requires
                crate::num::is_sqrt_floor(d as int, l as int),
                d >= 1,
        ;
        lemma_div_in_unit(v.x as int, l as int);
        lemma_div_in_unit(v.y as int, l as int);
        lemma_div_in_unit(v.z as int, l as int);
    }
    let x = crate::num::div_floor((v.x as i128) * (Q as i128), l);
    let y = crate::num::div_floor((v.y as i128) * (Q as i128), l);
    let z = crate::num::div_floor((v.z as i128) * (Q as i128), l);
    Vec3 { x: x as i64, y: y as i64, z: z as i64 }
}

/// For `|c| <= l`, the scaled quotient `c * Q / l` stays within `[-Q, Q]`.
proof fn lemma_div_in_unit(c: int, l: int)
    requires
        1 <= l,
        -l <= c <= l,
    ensures
        -(Q as int) <= (c * Q) / l <= Q as int,
{
    assert(c * Q <= l * Q && -(l * Q) <= c * Q) by (nonlinear_arith)
        requires
            -l <= c <= l,
    ;
    vstd::arithmetic::div_mod::lemma_div_is_ordered(c * Q, l * Q, l);
    vstd::arithmetic::div_mod::lemma_div_is_ordered(-(l as int) * Q, c * Q, l);
    assert((l * Q) / l == Q) by {
        vstd::arithmetic::div_mod::lemma_div_multiples_vanish(Q as int, l);
        assert(l * (Q as int) == (Q as int) * l) by (nonlinear_arith);
    }
    assert((-(l as int) * Q) / l == -(Q as int)) by {
        vstd::arithmetic::div_mod::lemma_div_multiples_vanish(-(Q as int), l);
        assert(-(l as int) * (Q as int) == l * (-(Q as int))) by (nonlinear_arith);
    }
}

/// The cross product of two unit-scale vectors, rescaled back to unit scale.
pub open spec fn spec_cross_q(a: Vec3, b: Vec3) -> Vec3 {
    Vec3 {
        x: (spec_cross_x(a, b) / (Q as int)) as i64,
        y: (spec_cross_y(a, b) / (Q as int)) as i64,
        z: (spec_cross_z(a, b) / (Q as int)) as i64,
    }
}

/// Cross product of `Q`-scaled vectors, divided by `Q` to stay `Q`-scaled.
pub fn cross_q(a: Vec3, b: Vec3) -> (r: Vec3)
    requires
        in_bounds(a, 2 * Q as int),
        in_bounds(b, 2 * Q as int),
    ensures
        r == spec_cross_q(a, b),
        in_bounds(r, 524288),
{
    let c = a.cross(b);
    proof {
        crate::vec3::lemma_cross_bound(a, b, 131072, 131072);
        assert(2 * (131072 * 131072int) == 524288 * (Q as int)) by (nonlinear_arith);
        lemma_div_bounded(c.x as int, 524288);
        lemma_div_bounded(c.y as int, 524288);
        lemma_div_bounded(c.z as int, 524288);
    }
    let x = crate::num::div_floor(c.x as i128, Q as i128);
    let y = crate::num::div_floor(c.y as i128, Q as i128);
    let z = crate::num::div_floor(c.z as i128, Q as i128);
    Vec3 { x: x as i64, y: y as i64, z: z as i64 }
}

/// A value within `m` units (in `Q` scale) divides down to within `m`.
proof fn lemma_div_bounded(c: int, m: int)
    requires
        0 <= m,
        -(m * (Q as int)) <= c <= m * (Q as int),
    ensures
        -m <= c / (Q as int) <= m,
{
    vstd::arithmetic::div_mod::lemma_div_is_ordered(c, m * (Q as int), Q as int);
    vstd::arithmetic::div_mod::lemma_div_is_ordered(-(m * (Q as int)), c, Q as int);
    assert((m * (Q as int)) / (Q as int) == m) by {
        vstd::arithmetic::div_mod::lemma_div_multiples_vanish(m, Q as int);
        assert(m * (Q as int) == (Q as int) * m) by (nonlinear_arith);
    }
    assert((-(m * (Q as int))) / (Q as int) == -m) by {
        vstd::arithmetic::div_mod::lemma_div_multiples_vanish(-m, Q as int);
        assert(-(m * (Q as int)) == (Q as int) * (-m)) by (nonlinear_arith);
    }
}

/// What `Onb::new` builds from a normal.
pub open spec fn spec_onb_new(normal: Vec3) -> Onb {
    let w = spec_normalize_q(normal);
    let a = if w.x > 58982 || w.x < -58982 {
        Vec3 { x: 0, y: Q, z: 0 }
    } else {
        Vec3 { x: Q, y: 0, z: 0 }
    };
    let c = spec_cross_q(w, a);
    let v = if c == (Vec3 { x: 0, y: 0, z: 0 }) {
        Vec3 { x: 0, y: 0, z: Q }
    } else {
        spec_normalize_q(c)
    };
    let u = spec_cross_q(w, v);
    Onb { u, v, w }
}

/// An approximately orthonormal frame; `w` follows the defining normal.
#[derive(Debug, Clone, Copy, PartialEq, Eq, Structural)]
pub struct Onb {
    pub u: Vec3,
    pub v: Vec3,
    pub w: Vec3,
}

impl Onb {
    /// The frame around a normal: `w` along it, `v` perpendicular to `w` and
    /// a fixed helper axis, `u` completing the triple. A degenerate cross
    /// product (the normal on the helper axis) falls back to the `z` axis.
    pub fn new(normal: Vec3) -> (r: Onb)
        requires
            in_bounds(normal, NORM_IN_BOUND as int),
            normal != (Vec3 { x: 0, y: 0, z: 0 }),
        ensures
            r == spec_onb_new(normal),
            in_bounds(r.u, 524288),
            in_bounds(r.v, Q as int),
            in_bounds(r.w, Q as int),
    {
        let w = normalize_q(normal);
        // 0.9 in Q scale.
        let a = if w.x > 58982 || w.x < -58982 {
            Vec3 { x: 0, y: Q, z: 0 }
        } else {
            Vec3 { x: Q, y: 0, z: 0 }
        };
        let c = cross_q(w, a);
        let v = if c.x == 0 && c.y == 0 && c.z == 0 {
            Vec3 { x: 0, y: 0, z: Q }
        } else {
            normalize_q(c)
        };
        let u = cross_q(w, v);
        Onb { u, v, w }
    }

    pub fn get_u(&self) -> (r: Vec3)
        ensures
            r == self.u,
    {
        self.u
    }

    pub fn get_v(&self) -> (r: Vec3)
        ensures
            r == self.v,
    {
        self.v
    }

    pub fn get_w(&self) -> (r: Vec3)
        ensures
            r == self.w,
    {
        self.w
    }

    /// Map coefficients in this frame to a direction:
    /// `u * c.x / Q + v * c.y / Q + w * c.z / Q`.
    pub fn transform(&self, c: Vec3) -> (r: Vec3)
        requires
            in_bounds(self.u, 524288),
            in_bounds(self.v, Q as int),
            in_bounds(self.w, Q as int),
            in_bounds(c, Q as int),
        ensures
            r == spec_onb_transform(*self, c),
            in_bounds(r, 1048576),
    {
        let x = frame_coord(self.u.x, self.v.x, self.w.x, c);
        let y = frame_coord(self.u.y, self.v.y, self.w.y, c);
        let z = frame_coord(self.u.z, self.v.z, self.w.z, c);
        Vec3 { x, y, z }
    }
}

/// One coordinate of the frame combination.
pub open spec fn spec_frame_coord(u: int, v: int, w: int, c: Vec3) -> int {
    (u * c.x + v * c.y + w * c.z) / (Q as int)
}

pub open spec fn spec_onb_transform(f: Onb, c: Vec3) -> Vec3 {
    Vec3 {
        x: spec_frame_coord(f.u.x as int, f.v.x as int, f.w.x as int, c) as i64,
        y: spec_frame_coord(f.u.y as int, f.v.y as int, f.w.y as int, c) as i64,
        z: spec_frame_coord(f.u.z as int, f.v.z as int, f.w.z as int, c) as i64,
    }
}

fn frame_coord(u: i64, v: i64, w: i64, c: Vec3) -> (r: i64)
    requires
        -524288 <= u <= 524288,
        -(Q as int) <= v <= Q as int,
        -(Q as int) <= w <= Q as int,
        in_bounds(c, Q as int),
    ensures
        r == spec_frame_coord(u as int, v as int, w as int, c),
        -1048576 <= r <= 1048576,
{
    proof {
        crate::vec3::lemma_prod_bound2(u as int, c.x as int, 524288, Q as int);
        crate::vec3::lemma_prod_bound2(v as int, c.y as int, Q as int, Q as int);
        crate::vec3::lemma_prod_bound2(w as int, c.z as int, Q as int, Q as int);
    }
    let num = (u as i128) * (c.x as i128) + (v as i128) * (c.y as i128) + (w as i128) * (c.z
        as i128);
    proof {
        assert(524288 * (Q as int) + (Q as int) * (Q as int) + (Q as int) * (Q as int) <= 1048576
            * (Q as int)) by (nonlinear_arith);
        lemma_div_bounded(num as int, 1048576);
    }
    let r = crate::num::div_floor(num, Q as i128);
    r as i64
}

} // verus!
