//! The bounding-volume hierarchy: a binary tree of median-split half-spaces
//! over a primitive collection.
//!
//! The central theorem here is that traversal with box pruning returns
//! exactly what a brute-force linear scan of the tree's primitives returns,
//! for every ray and every query range.

use crate::aabox::{aabbox_wf, box_contained, spec_box_hit, spec_enclose, t_range_wf, AABBox, TRange};
use crate::aaplane::AAPlane;
use crate::entities::{primitive_wf, spec_bounded_hit, spec_primitive_box, Primitive};
use crate::hittable::{spec_nearer, HitRecord};
use crate::hittable_list::{
    is_median_start, list_wf, spec_buckets_items, spec_items, spec_left_part, spec_linear_hit,
    spec_list_box, spec_right_part, HittableList,
};
use crate::vec3::{ray_wf, Ray};
use vstd::prelude::*;

verus! {

/// Collections at most this large become leaves.
pub const LEAF_SIZE: usize = 5;

/// A leaf holds a whole collection, searched linearly; a node splits space
/// by an axis-aligned plane and holds the two halves.
#[derive(Debug)]
pub enum BoundedVolumeHierarchy {
    Leaf(HittableList),
    Node {
        left: Box<BoundedVolumeHierarchy>,
        right: Box<BoundedVolumeHierarchy>,
        count: usize,
        dividing_plane: AAPlane,
    },
}

/// The primitives of the tree, leaves left to right.
pub open spec fn spec_bvh_items(b: BoundedVolumeHierarchy) -> Seq<Primitive>
    decreases b,
{
    match b {
        BoundedVolumeHierarchy::Leaf(l) => spec_items(l),
        BoundedVolumeHierarchy::Node { left, right, .. } => spec_bvh_items(*left) + spec_bvh_items(
            *right,
        ),
    }
}

/// Tree invariant: leaves are well-formed lists; a node's count is the
/// number of primitives beneath it.
pub open spec fn bvh_wf(b: BoundedVolumeHierarchy) -> bool
    decreases b,
{
    match b {
        BoundedVolumeHierarchy::Leaf(l) => list_wf(l) && l.len < 0xffffffff,
        BoundedVolumeHierarchy::Node { left, right, count, .. } => {
            &&& bvh_wf(*left)
            &&& bvh_wf(*right)
            &&& count == spec_bvh_items(b).len()
            &&& count < 0xffffffff
        },
    }
}

/// The box of a subtree: a leaf's cached box, or the enclosure of the two
/// children's boxes.
pub open spec fn spec_bvh_box(b: BoundedVolumeHierarchy) -> AABBox
    decreases b,
{
    match b {
        BoundedVolumeHierarchy::Leaf(l) => spec_list_box(l),
        BoundedVolumeHierarchy::Node { left, right, .. } => spec_enclose(
            spec_bvh_box(*left),
            spec_bvh_box(*right),
        ),
    }
}

/// Every primitive beneath a subtree is well-formed.
pub proof fn lemma_bvh_items_wf(b: BoundedVolumeHierarchy)
    requires
        bvh_wf(b),
    ensures
        forall|k: int|
            0 <= k < spec_bvh_items(b).len() ==> primitive_wf(#[trigger] spec_bvh_items(b)[k]),
    decreases b,
{
    match b {
        BoundedVolumeHierarchy::Leaf(l) => {
            crate::hittable_list::lemma_buckets_items_wf(l.values@);
        },
        BoundedVolumeHierarchy::Node { left, right, .. } => {
            lemma_bvh_items_wf(*left);
            lemma_bvh_items_wf(*right);
            let ls = spec_bvh_items(*left);
            let rs = spec_bvh_items(*right);
            assert(forall|k: int| 0 <= k < ls.len() ==> (ls + rs)[k] == ls[k]);
            assert(forall|k: int|
                ls.len() <= k < ls.len() + rs.len() ==> (ls + rs)[k] == rs[k - ls.len()]);
        },
    }
}

/// The subtree box is well-formed and contains every primitive's box
/// beneath it: the fact that justifies pruning.
pub proof fn lemma_bvh_box_contains(b: BoundedVolumeHierarchy)
    requires
        bvh_wf(b),
    ensures
        aabbox_wf(spec_bvh_box(b)),
        forall|k: int|
            0 <= k < spec_bvh_items(b).len() ==> box_contained(
                spec_primitive_box(#[trigger] spec_bvh_items(b)[k]),
                spec_bvh_box(b),
            ),
    decreases b,
{
    match b {
        BoundedVolumeHierarchy::Leaf(l) => {
            match l.aabbox {
                Some(_) => {},
                None => {},
            }
        },
        BoundedVolumeHierarchy::Node { left, right, .. } => {
            lemma_bvh_box_contains(*left);
            lemma_bvh_box_contains(*right);
            crate::aabox::lemma_spec_enclose_wf(spec_bvh_box(*left), spec_bvh_box(*right));
            let ls = spec_bvh_items(*left);
            let rs = spec_bvh_items(*right);
            let bb = spec_bvh_box(b);
            assert forall|k: int| 0 <= k < spec_bvh_items(b).len() implies box_contained(
                spec_primitive_box(#[trigger] spec_bvh_items(b)[k]),
                bb,
            ) by {
                if k < ls.len() {
                    assert(spec_bvh_items(b)[k] == ls[k]);
                } else {
                    assert(spec_bvh_items(b)[k] == rs[k - ls.len()]);
                }
            }
        },
    }
}

/// The nearest-hit fold splits over concatenation, the left side winning
/// ties, because the fold itself prefers earlier entries.
pub proof fn lemma_linear_concat(s: Seq<Primitive>, t: Seq<Primitive>, r: Ray, range: TRange)
    ensures
        spec_linear_hit(s + t, r, range) == spec_nearer(
            spec_linear_hit(s, r, range),
            spec_linear_hit(t, r, range),
        ),
    decreases t.len(),
{
    if t.len() == 0 {
        assert(s + t =~= s);
    } else {
        lemma_linear_concat(s, t.drop_last(), r, range);
        assert((s + t).drop_last() =~= s + t.drop_last());
        assert((s + t).last() == t.last());
    }
}

/// A ray that misses an enclosing box reports no hit on any primitive whose
/// box that box contains.
pub proof fn lemma_linear_pruned(s: Seq<Primitive>, outer: AABBox, r: Ray, range: TRange)
    requires
        forall|k: int| 0 <= k < s.len() ==> primitive_wf(#[trigger] s[k]),
        forall|k: int|
            0 <= k < s.len() ==> box_contained(spec_primitive_box(#[trigger] s[k]), outer),
        aabbox_wf(outer),
        ray_wf(r),
        t_range_wf(range),
        spec_box_hit(outer, r, range) is None,
    ensures
        spec_linear_hit(s, r, range) is None,
    decreases s.len(),
{
    if s.len() > 0 {
        assert(forall|k: int| 0 <= k < s.len() - 1 ==> s.drop_last()[k] == s[k]);
        lemma_linear_pruned(s.drop_last(), outer, r, range);
        crate::entities::lemma_bounded_hit_pruned(s.last(), outer, r, range);
    }
}

impl BoundedVolumeHierarchy {
    /// The number of primitives in the tree.
    pub fn len(&self) -> (n: usize)
        requires
            bvh_wf(*self),
        ensures
            n == spec_bvh_items(*self).len(),
    {
        match self {
            BoundedVolumeHierarchy::Leaf(l) => l.len(),
            BoundedVolumeHierarchy::Node { count, .. } => *count,
        }
    }

    /// The box of the whole subtree, recomputed on demand as the enclosure
    /// of the children's boxes.
    pub fn get_aabbox(&self) -> (b: AABBox)
        requires
            bvh_wf(*self),
        ensures
            b == spec_bvh_box(*self),
            aabbox_wf(b),
        decreases *self,
    {
        proof {
            lemma_bvh_box_contains(*self);
        }
        match self {
            BoundedVolumeHierarchy::Leaf(l) => l.get_aabbox(),
            BoundedVolumeHierarchy::Node { left, right, .. } => {
                let lb = left.get_aabbox();
                let rb = right.get_aabbox();
                lb.enclose(&rb)
            },
        }
    }

    /// Build the tree: collections small enough become leaves; otherwise
    /// split at the best median plane and recurse, falling back to a leaf
    /// when the split fails to separate anything (all boxes share a start).
    /// The contract pins the shape: a small collection is a leaf holding it
    /// unchanged, and a larger one is a leaf only when its best median split
    /// degenerated; otherwise the node's plane is a best median plane and
    /// each child holds one strictly smaller side of that split.
    pub fn from(value: HittableList) -> (b: BoundedVolumeHierarchy)
        requires
            list_wf(value),
            value.len < 0xffffffff,
        ensures
            bvh_wf(b),
            spec_bvh_items(b).to_multiset() =~= spec_items(value).to_multiset(),
            spec_bvh_items(b).len() == value.len,
            value.len <= LEAF_SIZE ==> b == BoundedVolumeHierarchy::Leaf(value),
            value.len > LEAF_SIZE ==> match b {
                BoundedVolumeHierarchy::Leaf(l) => exists|p: AAPlane|
                    {
                        &&& #[trigger] is_median_start(spec_items(value), p)
                        &&& spec_items(l) == spec_left_part(spec_items(value), p) || spec_items(l)
                            == spec_right_part(spec_items(value), p)
                    },
                BoundedVolumeHierarchy::Node { left, right, count, dividing_plane } => {
                    &&& count == value.len
                    &&& is_median_start(spec_items(value), dividing_plane)
                    &&& spec_bvh_items(*left).to_multiset() == spec_left_part(
                        spec_items(value),
                        dividing_plane,
                    ).to_multiset()
                    &&& spec_bvh_items(*right).to_multiset() == spec_right_part(
                        spec_items(value),
                        dividing_plane,
                    ).to_multiset()
                    &&& 0 < spec_bvh_items(*left).len() < value.len
                    &&& 0 < spec_bvh_items(*right).len() < value.len
                },
            },
        decreases value.len,
    {
        broadcast use vstd::seq_lib::group_seq_properties;

        if value.len() <= LEAF_SIZE {
            return BoundedVolumeHierarchy::Leaf(value);
        }
        let len = value.len();
        let ghost orig_items = spec_items(value);
        let (left, right, plane) = value.best_split();
        proof {
            crate::hittable_list::lemma_split_conservation(orig_items, plane);
        }
        if left.len() == len {
            proof {
                assert(is_median_start(orig_items, plane) && spec_items(left) == spec_left_part(
                    orig_items,
                    plane,
                ));
            }
            BoundedVolumeHierarchy::Leaf(left)
        } else if right.len() == len {
            proof {
                assert(is_median_start(orig_items, plane) && spec_items(right) == spec_right_part(
                    orig_items,
                    plane,
                ));
            }
            BoundedVolumeHierarchy::Leaf(right)
        } else {
            let lt = Self::from(left);
            let rt = Self::from(right);
            proof {
                vstd::seq_lib::lemma_multiset_commutative(spec_bvh_items(lt), spec_bvh_items(rt));
            }
            BoundedVolumeHierarchy::Node {
                left: Box::new(lt),
                right: Box::new(rt),
                count: len,
                dividing_plane: plane,
            }
        }
    }

    /// Nearest hit with subtree pruning: a child is searched only when the
    /// ray's slab test passes its box. The contract is the correctness
    /// theorem of the hierarchy: the result equals a brute-force linear
    /// scan of every primitive in the tree.
    pub fn hit(&self, r: &Ray, range: TRange) -> (res: Option<HitRecord>)
        requires
            bvh_wf(*self),
            ray_wf(*r),
            t_range_wf(range),
        ensures
            res == spec_linear_hit(spec_bvh_items(*self), *r, range),
        decreases *self,
    {
        match self {
            BoundedVolumeHierarchy::Leaf(l) => l.hit(r, range),
            BoundedVolumeHierarchy::Node { left, right, .. } => {
                let lb = left.get_aabbox();
                let rb = right.get_aabbox();
                let lh = if lb.is_hit(r, range) {
                    left.hit(r, range)
                } else {
                    proof {
                        lemma_bvh_items_wf(**left);
                        lemma_bvh_box_contains(**left);
                        lemma_linear_pruned(spec_bvh_items(**left), lb, *r, range);
                    }
                    None
                };
                let rh = if rb.is_hit(r, range) {
                    right.hit(r, range)
                } else {
                    proof {
                        lemma_bvh_items_wf(**right);
                        lemma_bvh_box_contains(**right);
                        lemma_linear_pruned(spec_bvh_items(**right), rb, *r, range);
                    }
                    None
                };
                proof {
                    lemma_linear_concat(spec_bvh_items(**left), spec_bvh_items(**right), *r, range);
                }
                crate::hittable::nearer(lh, rh)
            },
        }
    }
}

impl BoundedVolumeHierarchy {
    /// The summed density of the subtree's primitives: a leaf sums its
    /// collection, a node adds the two halves.
    fn pdf_weighted(&self, origin: crate::vec3::Point3, direction: crate::vec3::Vec3) -> (r: i128)
        requires
            bvh_wf(*self),
            crate::vec3::in_bounds(origin, crate::vec3::VEC_BOUND as int),
            crate::vec3::in_bounds(direction, crate::vec3::VEC_BOUND as int),
        ensures
            r == crate::hittable_list::spec_seq_pdf(spec_bvh_items(*self), origin, direction),
            0 <= r,
        decreases *self,
    {
        match self {
            BoundedVolumeHierarchy::Leaf(l) => l.pdf_sum(origin, direction),
            BoundedVolumeHierarchy::Node { left, right, .. } => {
                let a = left.pdf_weighted(origin, direction);
                let c = right.pdf_weighted(origin, direction);
                proof {
                    lemma_seq_pdf_concat(
                        spec_bvh_items(**left),
                        spec_bvh_items(**right),
                        origin,
                        direction,
                    );
                    crate::hittable_list::lemma_seq_pdf_bound(
                        spec_bvh_items(**left),
                        origin,
                        direction,
                    );
                    crate::hittable_list::lemma_seq_pdf_bound(
                        spec_bvh_items(**right),
                        origin,
                        direction,
                    );
                    lemma_pdf_weight_fits(spec_bvh_items(**left).len() as int);
                    lemma_pdf_weight_fits(spec_bvh_items(**right).len() as int);
                }
                a + c
            },
        }
    }

    /// The mean density over the whole tree: the weighted recursion divided
    /// by the primitive count.
    pub fn pdf_value(&self, origin: crate::vec3::Point3, direction: crate::vec3::Vec3) -> (r: i64)
        requires
            bvh_wf(*self),
            spec_bvh_items(*self).len() > 0,
            crate::vec3::in_bounds(origin, crate::vec3::VEC_BOUND as int),
            crate::vec3::in_bounds(direction, crate::vec3::VEC_BOUND as int),
        ensures
            r == crate::hittable_list::spec_list_pdf(spec_bvh_items(*self), origin, direction),
            0 <= r <= 0x10000000000,
    {
        let sum = self.pdf_weighted(origin, direction);
        let n = self.len();
        proof {
            crate::hittable_list::lemma_seq_pdf_bound(spec_bvh_items(*self), origin, direction);
            lemma_bvh_div_bound(
                crate::hittable_list::spec_seq_pdf(spec_bvh_items(*self), origin, direction),
                spec_bvh_items(*self).len() as int,
            );
        }
        let r = crate::num::div_floor(sum, n as i128);
        r as i64
    }

    /// A direction sampled toward a uniformly chosen primitive of the tree:
    /// descend by index against the left half's count, then delegate. On a
    /// non-empty tree every outcome is a sample of one of its primitives.
    pub fn random(&self, origin: crate::vec3::Point3, rng: &mut rand::rngs::SmallRng) -> (r:
        crate::vec3::Vec3)
        requires
            bvh_wf(*self),
            crate::vec3::in_bounds(origin, crate::vec3::VEC_BOUND as int),
        ensures
            crate::vec3::in_bounds(r, crate::vec3::VEC_BOUND as int),
            spec_bvh_items(*self).len() > 0 ==> exists|k: int|
                0 <= k < spec_bvh_items(*self).len() && crate::entities::is_primitive_sample(
                    #[trigger] spec_bvh_items(*self)[k],
                    origin,
                    r,
                ),
        decreases *self,
    {
        match self {
            BoundedVolumeHierarchy::Leaf(l) => {
                if l.len() == 0 {
                    crate::vec3::Vec3 { x: crate::vec3::Q, y: 0, z: 0 }
                } else {
                    l.random(origin, rng)
                }
            },
            BoundedVolumeHierarchy::Node { left, right, count, .. } => {
                if *count == 0 {
                    return crate::vec3::Vec3 { x: crate::vec3::Q, y: 0, z: 0 };
                }
                let ghost ls = spec_bvh_items(**left);
                let ghost rs = spec_bvh_items(**right);
                let k = crate::rng::random_index(rng, *count);
                if k < left.len() {
                    let r = left.random(origin, rng);
                    proof {
                        let kk = choose|kk: int|
                            0 <= kk < ls.len() && crate::entities::is_primitive_sample(
                                #[trigger] ls[kk],
                                origin,
                                r,
                            );
                        assert(spec_bvh_items(*self)[kk] == ls[kk]);
                    }
                    r
                } else {
                    let r = right.random(origin, rng);
                    proof {
                        let kk = choose|kk: int|
                            0 <= kk < rs.len() && crate::entities::is_primitive_sample(
                                #[trigger] rs[kk],
                                origin,
                                r,
                            );
                        assert(spec_bvh_items(*self)[ls.len() + kk] == rs[kk]);
                    }
                    r
                }
            },
        }
    }
}

/// Summed densities distribute over concatenation.
proof fn lemma_seq_pdf_concat(
    a: Seq<Primitive>,
    b: Seq<Primitive>,
    origin: crate::vec3::Point3,
    direction: crate::vec3::Vec3,
)
    ensures
        crate::hittable_list::spec_seq_pdf(a + b, origin, direction)
            == crate::hittable_list::spec_seq_pdf(a, origin, direction)
            + crate::hittable_list::spec_seq_pdf(b, origin, direction),
    decreases b.len(),
{
    if b.len() == 0 {
        assert(a + b =~= a);
    } else {
        lemma_seq_pdf_concat(a, b.drop_last(), origin, direction);
        assert((a + b).drop_last() =~= a + b.drop_last());
        assert((a + b).last() == b.last());
    }
}

/// The per-subtree density sum stays well inside `i128`.
proof fn lemma_pdf_weight_fits(n: int)
    requires
        0 <= n < 0x100000000,
    ensures
        n * 0x10000000000 <= 0x100000000000000000000,
{
    assert(n * 0x10000000000 <= 0x100000000000000000000) by (nonlinear_arith)
        requires
            0 <= n < 0x100000000,
    ;
}

/// Dividing the capped sum by the count lands in the capped range.
proof fn lemma_bvh_div_bound(sum: int, n: int)
    requires
        1 <= n,
        0 <= sum <= n * 0x10000000000,
    ensures
        0 <= sum / n <= 0x10000000000,
{
    vstd::arithmetic::div_mod::lemma_div_pos_is_pos(sum, n);
    vstd::arithmetic::div_mod::lemma_multiply_divide_le(sum, n, 0x10000000000);
}

} // verus!
