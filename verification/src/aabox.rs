//! Axis-aligned bounding boxes: enclosure, padding, partitioning tests, and
//! the exact ray-slab intersection test.

use crate::aaplane::{AAPlane, Axis};
use crate::vec3::{Point3, Ray, Vec3, T_SCALE, VEC_BOUND};
use vstd::arithmetic::div_mod::lemma_div_is_ordered;
use vstd::prelude::*;

verus! {

/// Minimum half-thickness of a box along any axis. A box whose extent on an
/// axis falls below `PAD` is inflated by `PAD` on both sides, the integer
/// analogue of the small epsilon padding used to keep slab tests stable for
/// flat primitives.
pub const PAD: i64 = 1;

/// Sentinel slab bound standing in for an unbounded interval: beyond every
/// representable ray parameter.
pub const T_INF: i128 = 0x10000000000000000000000000; // 2^100

/// Magnitude cap for the endpoints of a query range over `t`.
pub const T_RANGE_BOUND: i128 = 0x1000000000000000000; // 2^72

/// An inclusive range of the fixed-point ray parameter `t`.
#[derive(Debug, Clone, Copy, PartialEq, Eq, Structural)]
pub struct TRange {
    pub start: i128,
    pub end: i128,
}

/// The range endpoints are small enough for exact slab arithmetic.
pub open spec fn t_range_wf(r: TRange) -> bool {
    -T_RANGE_BOUND <= r.start <= T_RANGE_BOUND && -T_RANGE_BOUND <= r.end <= T_RANGE_BOUND
}

impl TRange {
    pub fn new(start: i128, end: i128) -> (r: TRange)
        ensures
            r == (TRange { start, end }),
    {
        TRange { start, end }
    }
}

/// An axis-aligned box, stored as per-axis inclusive intervals.
#[derive(Debug, Clone, Copy, PartialEq, Eq, Structural)]
pub struct AABBox {
    pub x_min: i64,
    pub x_max: i64,
    pub y_min: i64,
    pub y_max: i64,
    pub z_min: i64,
    pub z_max: i64,
}

pub open spec fn min64(a: i64, b: i64) -> i64 {
    if a <= b {
        a
    } else {
        b
    }
}

pub open spec fn max64(a: i64, b: i64) -> i64 {
    if a >= b {
        a
    } else {
        b
    }
}

/// One axis interval is ordered and within the coordinate bound; an interval
/// thin enough to be padded leaves room for the padding.
pub open spec fn axis_interval_wf(min: i64, max: i64) -> bool {
    &&& min <= max
    &&& -VEC_BOUND <= min && max <= VEC_BOUND
    &&& max - min < PAD ==> -VEC_BOUND + PAD <= min && max <= VEC_BOUND - PAD
}

/// Ordered on every axis, and within the coordinate bound.
pub open spec fn aabbox_wf(b: AABBox) -> bool {
    &&& axis_interval_wf(b.x_min, b.x_max)
    &&& axis_interval_wf(b.y_min, b.y_max)
    &&& axis_interval_wf(b.z_min, b.z_max)
}

/// The smallest box containing both arguments (before padding).
pub open spec fn spec_union(a: AABBox, b: AABBox) -> AABBox {
    AABBox {
        x_min: min64(a.x_min, b.x_min),
        x_max: max64(a.x_max, b.x_max),
        y_min: min64(a.y_min, b.y_min),
        y_max: max64(a.y_max, b.y_max),
        z_min: min64(a.z_min, b.z_min),
        z_max: max64(a.z_max, b.z_max),
    }
}

/// Inflate any axis thinner than `PAD` by `PAD` on both sides.
pub open spec fn spec_pad(b: AABBox) -> AABBox {
    AABBox {
        x_min: if b.x_max - b.x_min < PAD {
            (b.x_min - PAD) as i64
        } else {
            b.x_min
        },
        x_max: if b.x_max - b.x_min < PAD {
            (b.x_max + PAD) as i64
        } else {
            b.x_max
        },
        y_min: if b.y_max - b.y_min < PAD {
            (b.y_min - PAD) as i64
        } else {
            b.y_min
        },
        y_max: if b.y_max - b.y_min < PAD {
            (b.y_max + PAD) as i64
        } else {
            b.y_max
        },
        z_min: if b.z_max - b.z_min < PAD {
            (b.z_min - PAD) as i64
        } else {
            b.z_min
        },
        z_max: if b.z_max - b.z_min < PAD {
            (b.z_max + PAD) as i64
        } else {
            b.z_max
        },
    }
}

/// What `enclose` computes: the padded union.
pub open spec fn spec_enclose(a: AABBox, b: AABBox) -> AABBox {
    spec_pad(spec_union(a, b))
}

/// `a` lies inside `b`, axis interval by axis interval.
pub open spec fn box_contained(a: AABBox, b: AABBox) -> bool {
    &&& b.x_min <= a.x_min && a.x_max <= b.x_max
    &&& b.y_min <= a.y_min && a.y_max <= b.y_max
    &&& b.z_min <= a.z_min && a.z_max <= b.z_max
}

impl AABBox {
    pub fn new(x_min: i64, x_max: i64, y_min: i64, y_max: i64, z_min: i64, z_max: i64) -> (r:
        AABBox)
        ensures
            r == (AABBox { x_min, x_max, y_min, y_max, z_min, z_max }),
    {
        AABBox { x_min, x_max, y_min, y_max, z_min, z_max }
    }

    /// The point box `{p}`, of zero extent.
    pub fn from_point(p: Point3) -> (r: AABBox)
        ensures
            r == (AABBox {
                x_min: p.x,
                x_max: p.x,
                y_min: p.y,
                y_max: p.y,
                z_min: p.z,
                z_max: p.z,
            }),
    {
        AABBox { x_min: p.x, x_max: p.x, y_min: p.y, y_max: p.y, z_min: p.z, z_max: p.z }
    }

    /// The zero box at the origin.
    pub fn zero() -> (r: AABBox)
        ensures
            r == (AABBox { x_min: 0, x_max: 0, y_min: 0, y_max: 0, z_min: 0, z_max: 0 }),
    {
        AABBox { x_min: 0, x_max: 0, y_min: 0, y_max: 0, z_min: 0, z_max: 0 }
    }

    /// The inclusive interval this box spans on `axis`.
    pub fn axis(&self, axis: Axis) -> (r: (i64, i64))
        ensures
            r.0 == spec_axis_start(*self, axis),
            r.1 == spec_axis_end(*self, axis),
    {
        match axis {
            Axis::X => (self.x_min, self.x_max),
            Axis::Y => (self.y_min, self.y_max),
            Axis::Z => (self.z_min, self.z_max),
        }
    }

    /// The eight corner points.
    pub fn get_points(&self) -> (r: [Point3; 8])
        ensures
            r@ == spec_corners(*self),
    {
        let r = [
            Vec3 { x: self.x_min, y: self.y_min, z: self.z_min },
            Vec3 { x: self.x_min, y: self.y_min, z: self.z_max },
            Vec3 { x: self.x_min, y: self.y_max, z: self.z_min },
            Vec3 { x: self.x_min, y: self.y_max, z: self.z_max },
            Vec3 { x: self.x_max, y: self.y_min, z: self.z_min },
            Vec3 { x: self.x_max, y: self.y_min, z: self.z_max },
            Vec3 { x: self.x_max, y: self.y_max, z: self.z_min },
            Vec3 { x: self.x_max, y: self.y_max, z: self.z_max },
        ];
        proof {
            assert(r@ =~= spec_corners(*self));
        }
        r
    }

    /// Pad every degenerate axis, preserving well-formedness.
    fn pad_to_minimum(self) -> (r: AABBox)
        requires
            aabbox_wf(self),
        ensures
            r == spec_pad(self),
            aabbox_wf(r),
    {
        let mut b = self;
        if b.x_max - b.x_min < PAD {
            b.x_min = b.x_min - PAD;
            b.x_max = b.x_max + PAD;
        }
        if b.y_max - b.y_min < PAD {
            b.y_min = b.y_min - PAD;
            b.y_max = b.y_max + PAD;
        }
        if b.z_max - b.z_min < PAD {
            b.z_min = b.z_min - PAD;
            b.z_max = b.z_max + PAD;
        }
        b
    }

    /// The padded union of `self` and `other`: the box gains ground, never
    /// loses it.
    pub fn enclose(self, other: &AABBox) -> (r: AABBox)
        requires
            aabbox_wf(self),
            aabbox_wf(*other),
        ensures
            r == spec_enclose(self, *other),
            aabbox_wf(r),
            box_contained(self, r),
            box_contained(*other, r),
    {
        let u = AABBox {
            x_min: if self.x_min <= other.x_min {
                self.x_min
            } else {
                other.x_min
            },
            x_max: if self.x_max >= other.x_max {
                self.x_max
            } else {
                other.x_max
            },
            y_min: if self.y_min <= other.y_min {
                self.y_min
            } else {
                other.y_min
            },
            y_max: if self.y_max >= other.y_max {
                self.y_max
            } else {
                other.y_max
            },
            z_min: if self.z_min <= other.z_min {
                self.z_min
            } else {
                other.z_min
            },
            z_max: if self.z_max >= other.z_max {
                self.z_max
            } else {
                other.z_max
            },
        };
        u.pad_to_minimum()
    }

    /// Strictly on the low side of `plane`.
    pub fn left_of(&self, plane: AAPlane) -> (r: bool)
        ensures
            r == (spec_axis_end(*self, plane.axis) < plane.coord),
    {
        let (_, end) = self.axis(plane.axis);
        end < plane.coord
    }

    /// Strictly on the high side of `plane`.
    pub fn right_of(&self, plane: AAPlane) -> (r: bool)
        ensures
            r == (spec_axis_start(*self, plane.axis) > plane.coord),
    {
        let (start, _) = self.axis(plane.axis);
        start > plane.coord
    }

    /// Order two boxes by the start of their interval on `axis`; `true` when
    /// `self` starts strictly earlier.
    pub fn compare_by_axis(&self, other: &AABBox, axis: Axis) -> (r: bool)
        ensures
            r == (spec_axis_start(*self, axis) < spec_axis_start(*other, axis)),
    {
        let (a, _) = self.axis(axis);
        let (b, _) = other.axis(axis);
        a < b
    }

    /// Twice the sum of the pairwise face areas, exact.
    pub fn get_surface_area(&self) -> (r: i128)
        requires
            aabbox_wf(*self),
        ensures
            r == spec_surface_area(*self),
    {
        let dx = (self.x_max - self.x_min) as i128;
        let dy = (self.y_max - self.y_min) as i128;
        let dz = (self.z_max - self.z_min) as i128;
        proof {
            crate::vec3::lemma_prod_bound(dx as int, dy as int, 0x10000000);
            crate::vec3::lemma_prod_bound(dx as int, dz as int, 0x10000000);
            crate::vec3::lemma_prod_bound(dy as int, dz as int, 0x10000000);
        }
        2 * (dx * dy + dx * dz + dy * dz)
    }

    /// The exact slab test: intersect the three per-axis `t` intervals with
    /// the query range; if the intersection is non-empty, return its lower
    /// end (the entry parameter), else `None`.
    pub fn hit(&self, r: &Ray, range: TRange) -> (res: Option<i128>)
        requires
            aabbox_wf(*self),
            crate::vec3::ray_wf(*r),
            t_range_wf(range),
        ensures
            res == spec_box_hit(*self, *r, range),
    {
        let (xlo, xhi) = axis_slab(self.x_min, self.x_max, r.origin.x, r.direction.x);
        let (ylo, yhi) = axis_slab(self.y_min, self.y_max, r.origin.y, r.direction.y);
        let (zlo, zhi) = axis_slab(self.z_min, self.z_max, r.origin.z, r.direction.z);
        let mut tmin = xlo;
        let mut tmax = xhi;
        if ylo > tmin {
            tmin = ylo;
        }
        if yhi < tmax {
            tmax = yhi;
        }
        if zlo > tmin {
            tmin = zlo;
        }
        if zhi < tmax {
            tmax = zhi;
        }
        let entry = if range.start > tmin {
            range.start
        } else {
            tmin
        };
        let exit = if range.end < tmax {
            range.end
        } else {
            tmax
        };
        if entry <= exit {
            Some(entry)
        } else {
            None
        }
    }

    /// Whether the slab test reports an intersection at all.
    pub fn is_hit(&self, r: &Ray, range: TRange) -> (res: bool)
        requires
            aabbox_wf(*self),
            crate::vec3::ray_wf(*r),
            t_range_wf(range),
        ensures
            res == spec_box_hit(*self, *r, range) is Some,
    {
        self.hit(r, range).is_some()
    }
}

/// The corner points of a box, low `x` half first.
pub open spec fn spec_corners(b: AABBox) -> Seq<Point3> {
    seq![
        Vec3 { x: b.x_min, y: b.y_min, z: b.z_min },
        Vec3 { x: b.x_min, y: b.y_min, z: b.z_max },
        Vec3 { x: b.x_min, y: b.y_max, z: b.z_min },
        Vec3 { x: b.x_min, y: b.y_max, z: b.z_max },
        Vec3 { x: b.x_max, y: b.y_min, z: b.z_min },
        Vec3 { x: b.x_max, y: b.y_min, z: b.z_max },
        Vec3 { x: b.x_max, y: b.y_max, z: b.z_min },
        Vec3 { x: b.x_max, y: b.y_max, z: b.z_max },
    ]
}

pub open spec fn spec_axis_start(b: AABBox, axis: Axis) -> i64 {
    match axis {
        Axis::X => b.x_min,
        Axis::Y => b.y_min,
        Axis::Z => b.z_min,
    }
}

pub open spec fn spec_axis_end(b: AABBox, axis: Axis) -> i64 {
    match axis {
        Axis::X => b.x_max,
        Axis::Y => b.y_max,
        Axis::Z => b.z_max,
    }
}

pub open spec fn spec_surface_area(b: AABBox) -> int {
    let dx = b.x_max - b.x_min;
    let dy = b.y_max - b.y_min;
    let dz = b.z_max - b.z_min;
    2 * (dx * dy + dx * dz + dy * dz)
}

/// Floor of `num * T_SCALE / d`, for `d != 0`.
pub open spec fn spec_slab_div(num: int, d: int) -> int {
    crate::num::spec_t_of(num, d)
}

/// The `t` interval on one axis: all `t` with `min <= o + d * t <= max`,
/// with bounds rounded down to the `T_SCALE` grid; a zero direction
/// component keeps the ray at `o` forever, so the interval is everything or
/// nothing.
pub open spec fn spec_axis_slab(min: int, max: int, o: int, d: int) -> (int, int) {
    if d == 0 {
        if min <= o <= max {
            (-T_INF as int, T_INF as int)
        } else {
            (T_INF as int, -T_INF as int)
        }
    } else if d > 0 {
        (spec_slab_div(min - o, d), spec_slab_div(max - o, d))
    } else {
        (spec_slab_div(max - o, d), spec_slab_div(min - o, d))
    }
}

/// The slab-test result: the entry parameter of the intersection of the
/// three axis intervals with `range`, if that intersection is non-empty.
pub open spec fn spec_box_hit(b: AABBox, r: Ray, range: TRange) -> Option<i128> {
    let x = spec_axis_slab(b.x_min as int, b.x_max as int, r.origin.x as int, r.direction.x as int);
    let y = spec_axis_slab(b.y_min as int, b.y_max as int, r.origin.y as int, r.direction.y as int);
    let z = spec_axis_slab(b.z_min as int, b.z_max as int, r.origin.z as int, r.direction.z as int);
    let tmin = max3(x.0, y.0, z.0);
    let tmax = min3(x.1, y.1, z.1);
    let entry = if (range.start as int) > tmin {
        range.start as int
    } else {
        tmin
    };
    let exit = if (range.end as int) < tmax {
        range.end as int
    } else {
        tmax
    };
    if entry <= exit {
        Some(entry as i128)
    } else {
        None
    }
}

pub open spec fn max3(a: int, b: int, c: int) -> int {
    if a >= b && a >= c {
        a
    } else if b >= c {
        b
    } else {
        c
    }
}

pub open spec fn min3(a: int, b: int, c: int) -> int {
    if a <= b && a <= c {
        a
    } else if b <= c {
        b
    } else {
        c
    }
}

/// Enclosure is commutative: the two boxes contribute symmetrically to the
/// padded union.
pub proof fn lemma_enclose_commutative(a: AABBox, b: AABBox)
    ensures
        spec_enclose(a, b) == spec_enclose(b, a),
{
}

/// Enclosure is monotonic: the result contains both inputs, and its extent on
/// every axis is at least either input's extent on that axis.
pub proof fn lemma_enclose_monotonic(a: AABBox, b: AABBox)
    requires
        aabbox_wf(a),
        aabbox_wf(b),
    ensures
        box_contained(a, spec_enclose(a, b)),
        box_contained(b, spec_enclose(a, b)),
        forall|axis: Axis|
            spec_axis_end(spec_enclose(a, b), axis) - spec_axis_start(spec_enclose(a, b), axis)
                >= spec_axis_end(a, axis) - spec_axis_start(a, axis),
        forall|axis: Axis|
            spec_axis_end(spec_enclose(a, b), axis) - spec_axis_start(spec_enclose(a, b), axis)
                >= spec_axis_end(b, axis) - spec_axis_start(b, axis),
{
    assert forall|axis: Axis|
        spec_axis_end(spec_enclose(a, b), axis) - spec_axis_start(spec_enclose(a, b), axis)
            >= spec_axis_end(a, axis) - spec_axis_start(a, axis) by {
        lemma_union_axis_grows(a, b, axis);
    }
    assert forall|axis: Axis|
        spec_axis_end(spec_enclose(a, b), axis) - spec_axis_start(spec_enclose(a, b), axis)
            >= spec_axis_end(b, axis) - spec_axis_start(b, axis) by {
        lemma_union_axis_grows(a, b, axis);
    }
}

proof fn lemma_union_axis_grows(a: AABBox, b: AABBox, axis: Axis)
    requires
        aabbox_wf(a),
        aabbox_wf(b),
    ensures
        spec_axis_end(spec_enclose(a, b), axis) - spec_axis_start(spec_enclose(a, b), axis)
            >= spec_axis_end(a, axis) - spec_axis_start(a, axis),
        spec_axis_end(spec_enclose(a, b), axis) - spec_axis_start(spec_enclose(a, b), axis)
            >= spec_axis_end(b, axis) - spec_axis_start(b, axis),
{
}

/// A well-formed box, once padded, spans at least `PAD` on every axis; in
/// particular a zero-thickness input comes out of `enclose` with positive
/// extent on the thin axis.
pub proof fn lemma_pad_minimum_extent(b: AABBox)
    requires
        aabbox_wf(b),
    ensures
        forall|axis: Axis|
            spec_axis_end(spec_pad(b), axis) - spec_axis_start(spec_pad(b), axis) >= PAD,
        aabbox_wf(spec_pad(b)),
{
}

/// The enclosure of two well-formed boxes is well-formed and contains both,
/// stated at the specification level for use in inductive arguments.
pub proof fn lemma_spec_enclose_wf(a: AABBox, b: AABBox)
    requires
        aabbox_wf(a),
        aabbox_wf(b),
    ensures
        aabbox_wf(spec_enclose(a, b)),
        box_contained(a, spec_enclose(a, b)),
        box_contained(b, spec_enclose(a, b)),
{
}

/// Shrinking a box can only shrink the slab interval on every axis, so a ray
/// that misses an enclosing box misses every box contained in it. This is
/// what lets the hierarchy prune a whole subtree after one failed slab test.
pub proof fn lemma_box_hit_monotonic(inner: AABBox, outer: AABBox, r: Ray, range: TRange)
    requires
        aabbox_wf(inner),
        aabbox_wf(outer),
        crate::vec3::ray_wf(r),
        t_range_wf(range),
        box_contained(inner, outer),
        spec_box_hit(outer, r, range) is None,
    ensures
        spec_box_hit(inner, r, range) is None,
{
    lemma_axis_slab_monotonic(
        inner.x_min as int,
        inner.x_max as int,
        outer.x_min as int,
        outer.x_max as int,
        r.origin.x as int,
        r.direction.x as int,
    );
    lemma_axis_slab_monotonic(
        inner.y_min as int,
        inner.y_max as int,
        outer.y_min as int,
        outer.y_max as int,
        r.origin.y as int,
        r.direction.y as int,
    );
    lemma_axis_slab_monotonic(
        inner.z_min as int,
        inner.z_max as int,
        outer.z_min as int,
        outer.z_max as int,
        r.origin.z as int,
        r.direction.z as int,
    );
}

/// Per axis: the inner interval's slab bounds are inside the outer's.
proof fn lemma_axis_slab_monotonic(imin: int, imax: int, omin: int, omax: int, o: int, d: int)
    requires
        omin <= imin <= imax <= omax,
    ensures
        spec_axis_slab(imin, imax, o, d).0 >= spec_axis_slab(omin, omax, o, d).0,
        spec_axis_slab(imin, imax, o, d).1 <= spec_axis_slab(omin, omax, o, d).1,
{
    if d > 0 {
        lemma_div_is_ordered((omin - o) * T_SCALE, (imin - o) * T_SCALE, d);
        lemma_div_is_ordered((imax - o) * T_SCALE, (omax - o) * T_SCALE, d);
    } else if d < 0 {
        lemma_div_is_ordered((o - omax) * T_SCALE, (o - imax) * T_SCALE, -d);
        lemma_div_is_ordered((o - imin) * T_SCALE, (o - omin) * T_SCALE, -d);
    }
}

/// A ray whose origin lies exactly on a face of the box and whose direction
/// points strictly outward through that face reports no hit for any query
/// range that starts after `t == 0`.
pub proof fn lemma_slab_boundary_outward(b: AABBox, r: Ray, range: TRange, axis: Axis)
    requires
        aabbox_wf(b),
        crate::vec3::ray_wf(r),
        t_range_wf(range),
        range.start > 0,
        (crate::vec3::spec_axis(r.origin, axis) == spec_axis_end(b, axis) && crate::vec3::spec_axis(
            r.direction,
            axis,
        ) > 0) || (crate::vec3::spec_axis(r.origin, axis) == spec_axis_start(b, axis)
            && crate::vec3::spec_axis(r.direction, axis) < 0),
    ensures
        spec_box_hit(b, r, range) is None,
{
    let o = crate::vec3::spec_axis(r.origin, axis) as int;
    let d = crate::vec3::spec_axis(r.direction, axis) as int;
    let lo = spec_axis_start(b, axis) as int;
    let hi = spec_axis_end(b, axis) as int;
    // On the exit face the upper slab bound is exactly 0.
    assert(spec_axis_slab(lo, hi, o, d).1 == 0) by {
        if d > 0 {
            assert((hi - o) * T_SCALE == 0);
            vstd::arithmetic::div_mod::lemma_div_of0(d);
        } else {
            assert((o - lo) * T_SCALE == 0);
            vstd::arithmetic::div_mod::lemma_div_of0(-d);
        }
    }
}

/// One axis of the slab test, exact.
fn axis_slab(min: i64, max: i64, o: i64, d: i64) -> (r: (i128, i128))
    requires
        -VEC_BOUND <= min <= VEC_BOUND,
        -VEC_BOUND <= max <= VEC_BOUND,
        -VEC_BOUND <= o <= VEC_BOUND,
        -VEC_BOUND <= d <= VEC_BOUND,
    ensures
        r.0 == spec_axis_slab(min as int, max as int, o as int, d as int).0,
        r.1 == spec_axis_slab(min as int, max as int, o as int, d as int).1,
{
    if d == 0 {
        if min <= o && o <= max {
            (-T_INF, T_INF)
        } else {
            (T_INF, -T_INF)
        }
    } else if d > 0 {
        let lo = crate::num::div_floor(((min - o) as i128) * T_SCALE, d as i128);
        let hi = crate::num::div_floor(((max - o) as i128) * T_SCALE, d as i128);
        (lo, hi)
    } else {
        let lo = crate::num::div_floor(((o - max) as i128) * T_SCALE, (-d) as i128);
        let hi = crate::num::div_floor(((o - min) as i128) * T_SCALE, (-d) as i128);
        (lo, hi)
    }
}

} // verus!
