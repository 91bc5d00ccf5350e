//! The heterogeneous primitive store: homogeneous buckets keyed by variant
//! tag, and the list that aggregates them.

use crate::aabox::{aabbox_wf, box_contained, spec_enclose, t_range_wf, AABBox, TRange};
use crate::aaplane::AAPlane;
use crate::entities::{
    primitive_wf, spec_bounded_hit, spec_kind, spec_kind_rank, spec_primitive_box, Primitive,
    PrimitiveKind,
};
use crate::hittable::{spec_nearer, HitRecord};
use crate::vec3::{ray_wf, Ray};
use vstd::multiset::Multiset;
use vstd::prelude::*;
use vstd::seq_lib::group_seq_properties;

verus! {

/// A primitive's box lies strictly on the high side of the plane.
pub open spec fn is_right_of(p: Primitive, plane: AAPlane) -> bool {
    crate::aabox::spec_axis_start(spec_primitive_box(p), plane.axis) > plane.coord
}

/// The subsequence of primitives that fall to the left of the plane
/// (everything not strictly on the high side), order kept.
pub open spec fn spec_left_part(s: Seq<Primitive>, plane: AAPlane) -> Seq<Primitive>
    decreases s.len(),
{
    if s.len() == 0 {
        Seq::empty()
    } else {
        let pre = spec_left_part(s.drop_last(), plane);
        if !is_right_of(s.last(), plane) {
            pre.push(s.last())
        } else {
            pre
        }
    }
}

/// The subsequence strictly on the high side of the plane, order kept.
pub open spec fn spec_right_part(s: Seq<Primitive>, plane: AAPlane) -> Seq<Primitive>
    decreases s.len(),
{
    if s.len() == 0 {
        Seq::empty()
    } else {
        let pre = spec_right_part(s.drop_last(), plane);
        if is_right_of(s.last(), plane) {
            pre.push(s.last())
        } else {
            pre
        }
    }
}

/// The two parts of a partition: lengths sum to the whole, and together
/// they carry exactly the original primitives.
pub proof fn lemma_partition(s: Seq<Primitive>, plane: AAPlane)
    ensures
        spec_left_part(s, plane).len() + spec_right_part(s, plane).len() == s.len(),
        spec_left_part(s, plane).to_multiset().add(spec_right_part(s, plane).to_multiset())
            =~= s.to_multiset(),
        forall|k: int|
            0 <= k < spec_left_part(s, plane).len() ==> s.contains(
                #[trigger] spec_left_part(s, plane)[k],
            ),
        forall|k: int|
            0 <= k < spec_right_part(s, plane).len() ==> s.contains(
                #[trigger] spec_right_part(s, plane)[k],
            ),
    decreases s.len(),
{
    broadcast use group_seq_properties;

    if s.len() == 0 {
        assert(s.to_multiset() =~= Multiset::<Primitive>::empty());
        assert(spec_left_part(s, plane).to_multiset() =~= Multiset::<Primitive>::empty());
        assert(spec_right_part(s, plane).to_multiset() =~= Multiset::<Primitive>::empty());
    } else {
        let pre = s.drop_last();
        lemma_partition(pre, plane);
        assert(forall|k: int| 0 <= k < pre.len() ==> pre[k] == s[k]);
        assert(pre.push(s.last()) =~= s);
    }
}

/// Partitioning distributes over concatenation.
pub proof fn lemma_partition_concat(a: Seq<Primitive>, b: Seq<Primitive>, plane: AAPlane)
    ensures
        spec_left_part(a + b, plane) =~= spec_left_part(a, plane) + spec_left_part(b, plane),
        spec_right_part(a + b, plane) =~= spec_right_part(a, plane) + spec_right_part(b, plane),
    decreases b.len(),
{
    if b.len() == 0 {
        assert(a + b =~= a);
    } else {
        lemma_partition_concat(a, b.drop_last(), plane);
        assert((a + b).drop_last() =~= a + b.drop_last());
        assert((a + b).last() == b.last());
    }
}

/// The union box of a sequence of primitives, folded left to right; empty
/// sequences fold to the zero box.
pub open spec fn spec_seq_box(s: Seq<Primitive>) -> AABBox
    decreases s.len(),
{
    if s.len() == 0 {
        AABBox { x_min: 0, x_max: 0, y_min: 0, y_max: 0, z_min: 0, z_max: 0 }
    } else if s.len() == 1 {
        spec_primitive_box(s[0])
    } else {
        spec_enclose(spec_seq_box(s.drop_last()), spec_primitive_box(s.last()))
    }
}

/// The summed bounding-box surface area of a sequence of primitives.
pub open spec fn spec_seq_area(s: Seq<Primitive>) -> int
    decreases s.len(),
{
    if s.len() == 0 {
        0
    } else {
        spec_seq_area(s.drop_last()) + crate::aabox::spec_surface_area(
            spec_primitive_box(s.last()),
        )
    }
}

/// The nearest box-checked hit over a sequence of primitives, scanned left to
/// right with earlier entries winning ties: the brute-force reference that
/// both the list and the hierarchy are held to.
pub open spec fn spec_linear_hit(s: Seq<Primitive>, r: Ray, range: TRange) -> Option<HitRecord>
    decreases s.len(),
{
    if s.len() == 0 {
        None
    } else {
        spec_nearer(
            spec_linear_hit(s.drop_last(), r, range),
            spec_bounded_hit(s.last(), r, range),
        )
    }
}

/// A homogeneous bucket: every stored primitive carries the bucket's tag.
#[derive(Debug)]
pub struct RawHittableVec {
    pub kind: PrimitiveKind,
    pub values: Vec<Primitive>,
}

pub open spec fn raw_vec_wf(v: RawHittableVec) -> bool {
    forall|i: int|
        0 <= i < v.values@.len() ==> primitive_wf(#[trigger] v.values@[i]) && spec_kind(
            v.values@[i],
        ) == v.kind
}

impl RawHittableVec {
    /// An empty bucket for one tag.
    pub fn new(kind: PrimitiveKind) -> (v: RawHittableVec)
        ensures
            v.kind == kind,
            v.values@ == Seq::<Primitive>::empty(),
            raw_vec_wf(v),
    {
        RawHittableVec { kind, values: Vec::new() }
    }

    pub fn len(&self) -> (n: usize)
        ensures
            n == self.values@.len(),
    {
        self.values.len()
    }

    /// Append a primitive of this bucket's tag.
    pub fn add(&mut self, object: Primitive)
        requires
            raw_vec_wf(*old(self)),
            primitive_wf(object),
            spec_kind(object) == old(self).kind,
        ensures
            final(self).kind == old(self).kind,
            final(self).values@ == old(self).values@.push(object),
            raw_vec_wf(*final(self)),
    {
        self.values.push(object);
    }

    /// The union of the contained boxes. Never called on an empty bucket.
    pub fn get_aabbox(&self) -> (b: AABBox)
        requires
            raw_vec_wf(*self),
            self.values@.len() > 0,
        ensures
            b == spec_seq_box(self.values@),
            aabbox_wf(b),
            forall|i: int|
                0 <= i < self.values@.len() ==> box_contained(
                    spec_primitive_box(#[trigger] self.values@[i]),
                    b,
                ),
    {
        seq_box(&self.values)
    }

    /// The summed bounding-box area of the contents.
    pub fn get_surface_area(&self) -> (a: i128)
        requires
            raw_vec_wf(*self),
            self.values@.len() <= 0x10000000000,
        ensures
            a == spec_seq_area(self.values@),
    {
        let mut acc: i128 = 0;
        let mut i: usize = 0;
        proof {
            assert(self.values@.take(0) =~= Seq::<Primitive>::empty());
        }
        while i < self.values.len()
            invariant
                raw_vec_wf(*self),
                self.values@.len() <= 0x10000000000,
                0 <= i <= self.values@.len(),
                acc == spec_seq_area(self.values@.take(i as int)),
                0 <= acc <= 0x10000000000000000000000000,
            decreases self.values@.len() - i,
        {
            proof {
                crate::entities::lemma_primitive_box_wf(self.values@[i as int]);
                assert(self.values@.take(i as int + 1).drop_last() =~= self.values@.take(i as int));
                assert(forall|k: int|
                    0 <= k < self.values@.take(i as int + 1).len()
                        ==> primitive_wf(#[trigger] self.values@.take(i as int + 1)[k]));
                lemma_seq_area_bound(self.values@.take(i as int + 1));
            }
            acc = acc + self.values[i].get_surface_area();
            i = i + 1;
        }
        proof {
            assert(self.values@.take(self.values@.len() as int) =~= self.values@);
        }
        acc
    }

    /// Partition the bucket by a plane: boxes strictly on the high side go
    /// right, everything else (including straddlers) goes left. Order is
    /// kept on both sides.
    pub fn split_by(self, plane: AAPlane) -> (res: (RawHittableVec, RawHittableVec))
        requires
            raw_vec_wf(self),
        ensures
            res.0.kind == self.kind,
            res.1.kind == self.kind,
            raw_vec_wf(res.0),
            raw_vec_wf(res.1),
            res.0.values@ == spec_left_part(self.values@, plane),
            res.1.values@ == spec_right_part(self.values@, plane),
    {
        let kind = self.kind;
        let mut remaining = self.values;
        let ghost orig: Seq<Primitive> = remaining@;
        let mut left: Vec<Primitive> = Vec::new();
        let mut right: Vec<Primitive> = Vec::new();
        let ghost mut processed: Seq<Primitive> = Seq::empty();
        while remaining.len() > 0
            invariant
                processed + remaining@ == orig,
                forall|i: int|
                    0 <= i < remaining@.len() ==> primitive_wf(#[trigger] remaining@[i])
                        && spec_kind(remaining@[i]) == kind,
                forall|i: int|
                    0 <= i < processed.len() ==> primitive_wf(#[trigger] processed[i]) && spec_kind(
                        processed[i],
                    ) == kind,
                left@ == spec_left_part(processed, plane),
                right@ == spec_right_part(processed, plane),
                forall|i: int|
                    0 <= i < left@.len() ==> primitive_wf(#[trigger] left@[i]) && spec_kind(
                        left@[i],
                    ) == kind,
                forall|i: int|
                    0 <= i < right@.len() ==> primitive_wf(#[trigger] right@[i]) && spec_kind(
                        right@[i],
                    ) == kind,
            decreases remaining@.len(),
        {
            let p = remaining.remove(0);
            proof {
                assert(processed.push(p).drop_last() =~= processed);
            }
            let b = p.get_aabbox();
            if b.right_of(plane) {
                right.push(p);
            } else {
                left.push(p);
            }
            proof {
                processed = processed.push(p);
                assert(processed + remaining@ =~= orig) by {
                    assert(forall|i: int|
                        0 <= i < remaining@.len() ==> remaining@[i] == orig[processed.len() + i]);
                }
            }
        }
        proof {
            assert(processed =~= orig);
        }
        (RawHittableVec { kind, values: left }, RawHittableVec { kind, values: right })
    }
}

/// The union box of a non-empty vector of primitives, with the containment
/// facts the hierarchy's pruning argument rests on.
pub(crate) fn seq_box(values: &Vec<Primitive>) -> (b: AABBox)
    requires
        forall|i: int| 0 <= i < values@.len() ==> primitive_wf(#[trigger] values@[i]),
        values@.len() > 0,
    ensures
        b == spec_seq_box(values@),
        aabbox_wf(b),
        forall|i: int|
            0 <= i < values@.len() ==> box_contained(
                spec_primitive_box(#[trigger] values@[i]),
                b,
            ),
{
    proof {
        crate::entities::lemma_primitive_box_wf(values@[0]);
    }
    let mut acc = values[0].get_aabbox();
    let mut i: usize = 1;
    proof {
        assert(values@.take(1int) =~= seq![values@[0]]);
        lemma_box_contained_refl(acc);
    }
    while i < values.len()
        invariant
            forall|k: int| 0 <= k < values@.len() ==> primitive_wf(#[trigger] values@[k]),
            1 <= i <= values@.len(),
            acc == spec_seq_box(values@.take(i as int)),
            aabbox_wf(acc),
            forall|k: int|
                0 <= k < i ==> box_contained(spec_primitive_box(#[trigger] values@[k]), acc),
        decreases values@.len() - i,
    {
        let bi = values[i].get_aabbox();
        let next = acc.enclose(&bi);
        proof {
            assert(values@.take(i as int + 1).drop_last() =~= values@.take(i as int));
            assert(values@.take(i as int + 1).last() == values@[i as int]);
        }
        acc = next;
        i = i + 1;
    }
    proof {
        assert(values@.take(values@.len() as int) =~= values@);
    }
    acc
}

/// The concatenated contents of a sequence of buckets, bucket order kept.
pub open spec fn spec_buckets_items(s: Seq<RawHittableVec>) -> Seq<Primitive>
    decreases s.len(),
{
    if s.len() == 0 {
        Seq::empty()
    } else {
        spec_buckets_items(s.drop_last()) + s.last().values@
    }
}

/// The contents of a list, in its own storage order.
pub open spec fn spec_items(l: HittableList) -> Seq<Primitive> {
    spec_buckets_items(l.values@)
}

/// The cached union box, or the zero box when nothing was added.
pub open spec fn spec_list_box(l: HittableList) -> AABBox {
    match l.aabbox {
        Some(b) => b,
        None => AABBox { x_min: 0, x_max: 0, y_min: 0, y_max: 0, z_min: 0, z_max: 0 },
    }
}

/// The list invariant: buckets are non-empty, homogeneous and sorted by tag;
/// the count matches the contents; the cached box, when present, encloses
/// every stored primitive's box.
pub open spec fn list_wf(l: HittableList) -> bool {
    &&& forall|i: int|
        0 <= i < l.values@.len() ==> raw_vec_wf(#[trigger] l.values@[i])
            && l.values@[i].values@.len() > 0
    &&& forall|i: int, j: int|
        0 <= i < j < l.values@.len() ==> spec_kind_rank((#[trigger] l.values@[i]).kind)
            < spec_kind_rank((#[trigger] l.values@[j]).kind)
    &&& l.len == spec_items(l).len()
    &&& match l.aabbox {
        None => l.values@.len() == 0,
        Some(b) => aabbox_wf(b) && forall|k: int|
            0 <= k < spec_items(l).len() ==> box_contained(
                spec_primitive_box(#[trigger] spec_items(l)[k]),
                b,
            ),
    }
}

/// A mapping from primitive-type tags to homogeneous buckets, plus a running
/// count and the cached union box.
#[derive(Debug)]
pub struct HittableList {
    pub values: Vec<RawHittableVec>,
    pub len: usize,
    pub aabbox: Option<AABBox>,
}

/// The bucket contents split around one index.
pub proof fn lemma_buckets_split(s: Seq<RawHittableVec>, i: int)
    requires
        0 <= i < s.len(),
    ensures
        spec_buckets_items(s) =~= spec_buckets_items(s.subrange(0, i)) + s[i].values@
            + spec_buckets_items(s.subrange(i + 1, s.len() as int)),
    decreases s.len(),
{
    if i == s.len() - 1 {
        assert(s.subrange(0, i) =~= s.drop_last());
        assert(s.subrange(i + 1, s.len() as int) =~= Seq::<RawHittableVec>::empty());
    } else {
        let pre = s.drop_last();
        lemma_buckets_split(pre, i);
        assert(pre.subrange(0, i) =~= s.subrange(0, i));
        assert(pre.subrange(i + 1, pre.len() as int) =~= s.subrange(i + 1, s.len() as int
        ).drop_last());
        let tail = s.subrange(i + 1, s.len() as int);
        assert(tail.len() > 0);
        assert(spec_buckets_items(tail) == spec_buckets_items(tail.drop_last())
            + tail.last().values@);
        assert(tail.last() == s.last());
    }
}

/// All items of all buckets of a well-formed bucket sequence are well-formed.
pub proof fn lemma_buckets_items_wf(s: Seq<RawHittableVec>)
    requires
        forall|i: int| 0 <= i < s.len() ==> raw_vec_wf(#[trigger] s[i]),
    ensures
        forall|k: int|
            0 <= k < spec_buckets_items(s).len() ==> primitive_wf(
                #[trigger] spec_buckets_items(s)[k],
            ),
    decreases s.len(),
{
    if s.len() > 0 {
        assert(forall|i: int| 0 <= i < s.len() - 1 ==> s.drop_last()[i] == s[i]);
        lemma_buckets_items_wf(s.drop_last());
        let pre = spec_buckets_items(s.drop_last());
        let lastv = s.last().values@;
        assert(raw_vec_wf(s[s.len() - 1]));
        assert forall|k: int| 0 <= k < spec_buckets_items(s).len() implies primitive_wf(
            #[trigger] spec_buckets_items(s)[k],
        ) by {
            if k < pre.len() {
                assert(spec_buckets_items(s)[k] == pre[k]);
            } else {
                assert(spec_buckets_items(s)[k] == lastv[k - pre.len()]);
            }
        }
    }
}

impl HittableList {
    /// An empty list.
    pub fn new() -> (l: HittableList)
        ensures
            list_wf(l),
            spec_items(l) == Seq::<Primitive>::empty(),
            l.len == 0,
            l.aabbox is None,
    {
        HittableList { values: Vec::new(), len: 0, aabbox: None }
    }

    pub fn len(&self) -> (n: usize)
        ensures
            n == self.len,
    {
        self.len
    }

    pub fn is_empty(&self) -> (r: bool)
        ensures
            r == (self.len == 0),
    {
        self.len == 0
    }

    /// Drop all contents.
    pub fn clear(&mut self)
        ensures
            list_wf(*final(self)),
            spec_items(*final(self)) == Seq::<Primitive>::empty(),
            final(self).len == 0,
    {
        self.values = Vec::new();
        self.len = 0;
        self.aabbox = None;
    }

    /// The cached union box; the zero box for an empty list.
    pub fn get_aabbox(&self) -> (b: AABBox)
        ensures
            b == spec_list_box(*self),
    {
        match &self.aabbox {
            Some(b) => *b,
            None => AABBox::zero(),
        }
    }

    /// Append a primitive into the bucket of its tag, growing the cached box.
    pub fn add(&mut self, object: Primitive)
        requires
            list_wf(*old(self)),
            primitive_wf(object),
            old(self).len < 0xffffffff,
        ensures
            list_wf(*final(self)),
            final(self).len == old(self).len + 1,
            spec_items(*final(self)).to_multiset() =~= spec_items(*old(self)).to_multiset().insert(
                object,
            ),
    {
        let kind = object.kind();
        let rank = crate::entities::kind_rank(kind);
        let obox = object.get_aabbox();
        let new_box = match &self.aabbox {
            Some(b) => b.enclose(&obox),
            None => {
                proof {
                    lemma_box_contained_refl(obox);
                }
                obox
            },
        };
        // Find the bucket of this tag, or the insertion position.
        let i = find_bucket_pos(&self.values, rank);
        if i < self.values.len() && crate::entities::kind_rank(self.values[i].kind) == rank {
            proof {
                lemma_kind_rank_injective(self.values@[i as int].kind, kind);
            }
            self.add_existing(i, object, new_box);
        } else {
            self.add_new(i, object, new_box);
        }
    }

    /// Append into the existing bucket at `i`.
    #[verifier::rlimit(100)]
    fn add_existing(&mut self, i: usize, object: Primitive, new_box: AABBox)
        requires
            list_wf(*old(self)),
            primitive_wf(object),
            old(self).len < 0xffffffff,
            i < old(self).values@.len(),
            old(self).values@[i as int].kind == spec_kind(object),
            aabbox_wf(new_box),
            box_contained(spec_primitive_box(object), new_box),
            match old(self).aabbox {
                Some(b) => box_contained(b, new_box),
                None => true,
            },
        ensures
            list_wf(*final(self)),
            final(self).len == old(self).len + 1,
            spec_items(*final(self)).to_multiset() =~= spec_items(*old(self)).to_multiset().insert(
                object,
            ),
    {
        broadcast use vstd::seq_lib::group_seq_properties;

        let ghost old_items = spec_items(*self);
        let ghost old_vals = self.values@;
        let mut bucket = self.values.remove(i);
        bucket.add(object);
        self.values.insert(i, bucket);
        self.len = self.len + 1;
        self.aabbox = Some(new_box);
        proof {
            let iv = i as int;
            let n = old_vals.len() as int;
            assert(self.values@.len() == n);
            assert(forall|k: int| 0 <= k < n && k != iv ==> self.values@[k] == old_vals[k]);
            assert(self.values@[iv].kind == old_vals[iv].kind);
            assert(self.values@[iv].values@ == old_vals[iv].values@.push(object));
            lemma_buckets_split(old_vals, iv);
            lemma_buckets_split(self.values@, iv);
            assert(self.values@.subrange(0, iv) =~= old_vals.subrange(0, iv));
            assert(self.values@.subrange(iv + 1, n) =~= old_vals.subrange(iv + 1, n));
            let a = spec_buckets_items(old_vals.subrange(0, iv));
            let m = old_vals[iv].values@;
            let b = spec_buckets_items(old_vals.subrange(iv + 1, n));
            lemma_concat3_insert(a, m, b, object);
            assert(spec_items(*self) =~= a + m.push(object) + b);
            assert(old_items =~= a + m + b);
            lemma_add_containment(*old(self), *self, object, new_box);
        }
    }

    /// Insert a fresh single-item bucket at position `i`.
    #[verifier::rlimit(100)]
    fn add_new(&mut self, i: usize, object: Primitive, new_box: AABBox)
        requires
            list_wf(*old(self)),
            primitive_wf(object),
            old(self).len < 0xffffffff,
            i <= old(self).values@.len(),
            forall|k: int|
                0 <= k < i ==> spec_kind_rank((#[trigger] old(self).values@[k]).kind)
                    < spec_kind_rank(spec_kind(object)),
            forall|k: int|
                i <= k < old(self).values@.len() ==> spec_kind_rank(
                    (#[trigger] old(self).values@[k]).kind,
                ) > spec_kind_rank(spec_kind(object)),
            aabbox_wf(new_box),
            box_contained(spec_primitive_box(object), new_box),
            match old(self).aabbox {
                Some(b) => box_contained(b, new_box),
                None => true,
            },
        ensures
            list_wf(*final(self)),
            final(self).len == old(self).len + 1,
            spec_items(*final(self)).to_multiset() =~= spec_items(*old(self)).to_multiset().insert(
                object,
            ),
    {
        broadcast use vstd::seq_lib::group_seq_properties;

        let ghost old_items = spec_items(*self);
        let ghost old_vals = self.values@;
        let mut bucket = RawHittableVec::new(object.kind());
        bucket.add(object);
        self.values.insert(i, bucket);
        self.len = self.len + 1;
        self.aabbox = Some(new_box);
        proof {
            let iv = i as int;
            let n = old_vals.len() as int;
            assert(self.values@.len() == n + 1);
            assert(forall|k: int| 0 <= k < iv ==> self.values@[k] == old_vals[k]);
            assert(forall|k: int| iv < k < n + 1 ==> self.values@[k] == old_vals[k - 1]);
            assert(self.values@[iv].values@ =~= Seq::<Primitive>::empty().push(object));
            lemma_buckets_split(self.values@, iv);
            lemma_buckets_split2(old_vals, iv);
            assert(self.values@.subrange(0, iv) =~= old_vals.subrange(0, iv));
            assert(self.values@.subrange(iv + 1, n + 1) =~= old_vals.subrange(iv, n));
            let a = spec_buckets_items(old_vals.subrange(0, iv));
            let b = spec_buckets_items(old_vals.subrange(iv, n));
            lemma_concat3_insert(a, Seq::empty(), b, object);
            assert(spec_items(*self) =~= a + Seq::<Primitive>::empty().push(object) + b);
            assert(old_items =~= a + Seq::<Primitive>::empty() + b);
            lemma_add_containment(*old(self), *self, object, new_box);
        }
    }
}

impl HittableList {
    /// The nearest hit over every stored primitive: a linear scan, each
    /// primitive checked against its own bounding box first; earlier entries win ties.
    pub fn hit(&self, r: &Ray, range: TRange) -> (res: Option<HitRecord>)
        requires
            list_wf(*self),
            ray_wf(*r),
            t_range_wf(range),
        ensures
            res == spec_linear_hit(spec_items(*self), *r, range),
    {
        let mut acc: Option<HitRecord> = None;
        let mut i: usize = 0;
        proof {
            assert(self.values@.take(0) =~= Seq::<RawHittableVec>::empty());
        }
        while i < self.values.len()
            invariant
                list_wf(*self),
                ray_wf(*r),
                t_range_wf(range),
                0 <= i <= self.values@.len(),
                acc == spec_linear_hit(
                    spec_buckets_items(self.values@.take(i as int)),
                    *r,
                    range,
                ),
            decreases self.values@.len() - i,
        {
            let ghost pre_items = spec_buckets_items(self.values@.take(i as int));
            let ghost bucket_items = self.values@[i as int].values@;
            let mut j: usize = 0;
            proof {
                assert(pre_items + bucket_items.take(0) =~= pre_items);
            }
            while j < self.values[i].values.len()
                invariant
                    list_wf(*self),
                    ray_wf(*r),
                    t_range_wf(range),
                    0 <= i < self.values@.len(),
                    0 <= j <= bucket_items.len(),
                    pre_items == spec_buckets_items(self.values@.take(i as int)),
                    bucket_items == self.values@[i as int].values@,
                    acc == spec_linear_hit(pre_items + bucket_items.take(j as int), *r, range),
                decreases bucket_items.len() - j,
            {
                let h = self.values[i].values[j].bounded_hit(r, range);
                proof {
                    let sofar = pre_items + bucket_items.take(j as int);
                    assert(sofar.push(bucket_items[j as int]) =~= pre_items + bucket_items.take(
                        j as int + 1,
                    ));
                    assert(sofar.push(bucket_items[j as int]).drop_last() =~= sofar);
                }
                acc = crate::hittable::nearer(acc, h);
                j = j + 1;
            }
            proof {
                assert(bucket_items.take(bucket_items.len() as int) =~= bucket_items);
                assert(self.values@.take(i as int + 1).drop_last() =~= self.values@.take(i as int));
                assert(spec_buckets_items(self.values@.take(i as int + 1)) =~= pre_items
                    + bucket_items);
            }
            i = i + 1;
        }
        proof {
            assert(self.values@.take(self.values@.len() as int) =~= self.values@);
        }
        acc
    }

    /// The summed bounding-box surface area of the contents.
    pub fn get_surface_area(&self) -> (a: i128)
        requires
            list_wf(*self),
            self.len <= 0x10000000000,
        ensures
            a == spec_seq_area(spec_items(*self)),
    {
        let mut acc: i128 = 0;
        let mut i: usize = 0;
        proof {
            assert(self.values@.take(0) =~= Seq::<RawHittableVec>::empty());
        }
        while i < self.values.len()
            invariant
                list_wf(*self),
                0 <= i <= self.values@.len(),
                spec_items(*self).len() <= 0x10000000000,
                acc == spec_seq_area(spec_buckets_items(self.values@.take(i as int))),
                0 <= acc <= 0x10000000000000000000000000,
            decreases self.values@.len() - i,
        {
            let ghost pre_items = spec_buckets_items(self.values@.take(i as int));
            let ghost bucket_items = self.values@[i as int].values@;
            proof {
                assert(self.values@.take(i as int + 1).drop_last() =~= self.values@.take(i as int));
                assert(spec_buckets_items(self.values@.take(i as int + 1)) =~= pre_items
                    + bucket_items);
                lemma_seq_area_concat(pre_items, bucket_items);
                lemma_buckets_prefix_items_len(self.values@, i as int + 1);
                lemma_buckets_items_wf(self.values@.take(i as int + 1));
                lemma_seq_area_bound(pre_items + bucket_items);
            }
            acc = acc + self.values[i].get_surface_area();
            i = i + 1;
        }
        proof {
            assert(self.values@.take(self.values@.len() as int) =~= self.values@);
        }
        acc
    }

    /// Partition the whole collection by a plane, bucket by bucket: boxes
    /// strictly on the high side go right, everything else (straddlers
    /// included) goes left. Bucket order, and the order inside each side of
    /// each bucket, is kept; both caches are rebuilt.
    #[verifier::rlimit(100)]
    pub fn split_by(self, plane: AAPlane) -> (res: (HittableList, HittableList))
        requires
            list_wf(self),
            self.len < 0xffffffff,
        ensures
            list_wf(res.0),
            list_wf(res.1),
            spec_items(res.0) == spec_left_part(spec_items(self), plane),
            spec_items(res.1) == spec_right_part(spec_items(self), plane),
            res.0.len + res.1.len == self.len,
            res.0.len == 0 ==> res.0.aabbox is None,
            res.1.len == 0 ==> res.1.aabbox is None,
    {
        broadcast use vstd::seq_lib::group_seq_properties;

        let ghost orig_vals = self.values@;
        let ghost orig_items = spec_items(self);
        let total = self.len;
        let mut remaining = self.values;
        let mut left = HittableList::new();
        let mut right = HittableList::new();
        let ghost mut processed: Seq<RawHittableVec> = Seq::empty();
        proof {
            assert(spec_buckets_items(processed) =~= Seq::<Primitive>::empty());
        }
        while remaining.len() > 0
            invariant
                processed + remaining@ == orig_vals,
                orig_items == spec_buckets_items(orig_vals),
                forall|i: int|
                    0 <= i < orig_vals.len() ==> raw_vec_wf(#[trigger] orig_vals[i])
                        && orig_vals[i].values@.len() > 0,
                forall|i: int, j: int|
                    0 <= i < j < orig_vals.len() ==> spec_kind_rank(
                        (#[trigger] orig_vals[i]).kind,
                    ) < spec_kind_rank((#[trigger] orig_vals[j]).kind),
                list_wf(left),
                list_wf(right),
                left.len == 0 ==> left.aabbox is None,
                right.len == 0 ==> right.aabbox is None,
                spec_items(left) == spec_left_part(spec_buckets_items(processed), plane),
                spec_items(right) == spec_right_part(spec_buckets_items(processed), plane),
                left.len + right.len == spec_buckets_items(processed).len(),
                spec_buckets_items(processed).len() + spec_buckets_items(remaining@).len()
                    == orig_items.len(),
                orig_items.len() < 0xffffffff,
                forall|i: int|
                    0 <= i < left.values@.len() ==> forall|j: int|
                        0 <= j < remaining@.len() ==> spec_kind_rank(
                            (#[trigger] left.values@[i]).kind,
                        ) < spec_kind_rank((#[trigger] remaining@[j]).kind),
                forall|i: int|
                    0 <= i < right.values@.len() ==> forall|j: int|
                        0 <= j < remaining@.len() ==> spec_kind_rank(
                            (#[trigger] right.values@[i]).kind,
                        ) < spec_kind_rank((#[trigger] remaining@[j]).kind),
            decreases remaining@.len(),
        {
            let ghost pre_items = spec_buckets_items(processed);
            let ghost rem_before = remaining@;
            let bucket = remaining.remove(0);
            let ghost bucket_items = bucket.values@;
            proof {
                // The removed bucket is the one right after `processed` in
                // the original order.
                assert(orig_vals[processed.len() as int] == bucket);
                lemma_buckets_push(processed, bucket);
                lemma_partition_concat(pre_items, bucket_items, plane);
                lemma_partition(bucket_items, plane);
                // Contents of the old remainder = this bucket + the new one.
                lemma_buckets_split2(rem_before, 1);
                assert(rem_before.subrange(0, 1) =~= Seq::<RawHittableVec>::empty().push(bucket));
                assert(spec_buckets_items(Seq::<RawHittableVec>::empty().push(bucket))
                    =~= bucket_items) by {
                    let single = Seq::<RawHittableVec>::empty().push(bucket);
                    assert(single.len() == 1);
                    assert(single.last() == bucket);
                    assert(single.drop_last() =~= Seq::<RawHittableVec>::empty());
                    assert(spec_buckets_items(single) == spec_buckets_items(single.drop_last())
                        + bucket.values@);
                }
                assert(rem_before.subrange(1, rem_before.len() as int) =~= remaining@);
                // Every bucket still waiting comes later in the original
                // order, hence with a strictly larger tag rank.
                assert(forall|j: int|
                    0 <= j < rem_before.len() ==> #[trigger] rem_before[j]
                        == orig_vals[processed.len() + j]);
                assert(forall|j: int| 0 <= j < remaining@.len() ==> #[trigger] remaining@[j]
                    == rem_before[j + 1]);
                assert(forall|j: int|
                    0 <= j < remaining@.len() ==> spec_kind_rank(bucket.kind) < spec_kind_rank(
                        (#[trigger] remaining@[j]).kind,
                    ));
            }
            let (bl, br) = bucket.split_by(plane);
            if bl.len() > 0 {
                push_side(&mut left, bl);
            }
            if br.len() > 0 {
                push_side(&mut right, br);
            }
            proof {
                processed = processed.push(bucket);
                assert(processed + remaining@ =~= orig_vals) by {
                    assert(forall|i: int|
                        0 <= i < remaining@.len() ==> remaining@[i] == orig_vals[processed.len()
                            + i]);
                }
            }
        }
        proof {
            assert(processed =~= orig_vals);
        }
        (left, right)
    }
}

/// The summed light-sampling density over a sequence of primitives.
pub open spec fn spec_seq_pdf(s: Seq<Primitive>, origin: crate::vec3::Point3, direction: crate::vec3::Vec3) -> int
    decreases s.len(),
{
    if s.len() == 0 {
        0
    } else {
        spec_seq_pdf(s.drop_last(), origin, direction) + crate::entities::spec_primitive_pdf(
            s.last(),
            origin,
            direction,
        )
    }
}

/// The density of a collection: the mean over its primitives.
pub open spec fn spec_list_pdf(s: Seq<Primitive>, origin: crate::vec3::Point3, direction: crate::vec3::Vec3) -> i64 {
    if s.len() == 0 {
        0
    } else {
        (spec_seq_pdf(s, origin, direction) / s.len() as int) as i64
    }
}

/// Summed densities are nonnegative and bounded by the count times the cap.
pub proof fn lemma_seq_pdf_bound(s: Seq<Primitive>, origin: crate::vec3::Point3, direction: crate::vec3::Vec3)
    ensures
        0 <= spec_seq_pdf(s, origin, direction) <= s.len() * 0x10000000000,
    decreases s.len(),
{
    if s.len() > 0 {
        lemma_seq_pdf_bound(s.drop_last(), origin, direction);
        lemma_primitive_pdf_bound(s.last(), origin, direction);
        assert((s.len() - 1) * 0x10000000000 + 0x10000000000 == s.len() * 0x10000000000)
            by (nonlinear_arith);
    } else {
        assert(s.len() * 0x10000000000 == 0) by (nonlinear_arith)
            requires
                s.len() == 0,
        ;
    }
}

/// Every per-primitive density sits in the capped range.
pub proof fn lemma_primitive_pdf_bound(p: Primitive, origin: crate::vec3::Point3, direction: crate::vec3::Vec3)
    ensures
        0 <= crate::entities::spec_primitive_pdf(p, origin, direction) <= 0x10000000000,
{
    reveal(crate::entities::spec_primitive_pdf);
}

impl HittableList {
    /// The mean light-sampling density of the collection's primitives for a
    /// direction from `origin`.
    pub fn pdf_value(&self, origin: crate::vec3::Point3, direction: crate::vec3::Vec3) -> (r: i64)
        requires
            list_wf(*self),
            self.len > 0,
            crate::vec3::in_bounds(origin, crate::vec3::VEC_BOUND as int),
            crate::vec3::in_bounds(direction, crate::vec3::VEC_BOUND as int),
        ensures
            r == spec_list_pdf(spec_items(*self), origin, direction),
            0 <= r <= 0x10000000000,
    {
        let acc = self.pdf_sum(origin, direction);
        proof {
            lemma_seq_pdf_bound(spec_items(*self), origin, direction);
            lemma_div_le_each(
                spec_seq_pdf(spec_items(*self), origin, direction),
                spec_items(*self).len() as int,
                0x10000000000,
            );
        }
        let r = crate::num::div_floor(acc, self.len as i128);
        r as i64
    }

    /// The summed density over every stored primitive.
    pub(crate) fn pdf_sum(&self, origin: crate::vec3::Point3, direction: crate::vec3::Vec3) -> (r:
        i128)
        requires
            list_wf(*self),
            crate::vec3::in_bounds(origin, crate::vec3::VEC_BOUND as int),
            crate::vec3::in_bounds(direction, crate::vec3::VEC_BOUND as int),
        ensures
            r == spec_seq_pdf(spec_items(*self), origin, direction),
            0 <= r,
    {
        let mut acc: i128 = 0;
        let mut i: usize = 0;
        proof {
            assert(self.values@.take(0) =~= Seq::<RawHittableVec>::empty());
        }
        while i < self.values.len()
            invariant
                list_wf(*self),
                crate::vec3::in_bounds(origin, crate::vec3::VEC_BOUND as int),
                crate::vec3::in_bounds(direction, crate::vec3::VEC_BOUND as int),
                0 <= i <= self.values@.len(),
                acc == spec_seq_pdf(
                    spec_buckets_items(self.values@.take(i as int)),
                    origin,
                    direction,
                ),
                0 <= acc,
            decreases self.values@.len() - i,
        {
            let ghost pre_items = spec_buckets_items(self.values@.take(i as int));
            let ghost bucket_items = self.values@[i as int].values@;
            let mut j: usize = 0;
            proof {
                assert(pre_items + bucket_items.take(0) =~= pre_items);
            }
            while j < self.values[i].values.len()
                invariant
                    list_wf(*self),
                    crate::vec3::in_bounds(origin, crate::vec3::VEC_BOUND as int),
                    crate::vec3::in_bounds(direction, crate::vec3::VEC_BOUND as int),
                    0 <= i < self.values@.len(),
                    0 <= j <= bucket_items.len(),
                    pre_items == spec_buckets_items(self.values@.take(i as int)),
                    bucket_items == self.values@[i as int].values@,
                    acc == spec_seq_pdf(pre_items + bucket_items.take(j as int), origin, direction),
                    0 <= acc,
                decreases bucket_items.len() - j,
            {
                let v = self.values[i].values[j].pdf_value(origin, direction);
                proof {
                    let sofar = pre_items + bucket_items.take(j as int);
                    assert(sofar.push(bucket_items[j as int]) =~= pre_items + bucket_items.take(
                        j as int + 1,
                    ));
                    assert(sofar.push(bucket_items[j as int]).drop_last() =~= sofar);
                    lemma_seq_pdf_bound(sofar, origin, direction);
                    lemma_seq_pdf_bound(sofar.push(bucket_items[j as int]), origin, direction);
                    lemma_buckets_prefix_items_len(self.values@, i as int);
                    lemma_seq_pdf_abs_bound(sofar.push(bucket_items[j as int]), origin, direction);
                }
                acc = acc + (v as i128);
                j = j + 1;
            }
            proof {
                assert(bucket_items.take(bucket_items.len() as int) =~= bucket_items);
                assert(self.values@.take(i as int + 1).drop_last() =~= self.values@.take(i as int));
                assert(spec_buckets_items(self.values@.take(i as int + 1)) =~= pre_items
                    + bucket_items);
            }
            i = i + 1;
        }
        proof {
            assert(self.values@.take(self.values@.len() as int) =~= self.values@);
        }
        acc
    }

    /// A sampled direction toward a uniformly chosen primitive: the walk to
    /// the chosen index always lands on a stored primitive, and the result
    /// is one of that primitive's samples.
    pub fn random(&self, origin: crate::vec3::Point3, rng: &mut rand::rngs::SmallRng) -> (r:
        crate::vec3::Vec3)
        requires
            list_wf(*self),
            self.len > 0,
            crate::vec3::in_bounds(origin, crate::vec3::VEC_BOUND as int),
        ensures
            crate::vec3::in_bounds(r, crate::vec3::VEC_BOUND as int),
            exists|k: int|
                0 <= k < spec_items(*self).len() && crate::entities::is_primitive_sample(
                    #[trigger] spec_items(*self)[k],
                    origin,
                    r,
                ),
    {
        let k = crate::rng::random_index(rng, self.len);
        // Walk the buckets to the k-th primitive overall.
        let mut i: usize = 0;
        let mut skipped: usize = 0;
        proof {
            assert(self.values@.take(0) =~= Seq::<RawHittableVec>::empty());
        }
        while i < self.values.len()
            invariant
                list_wf(*self),
                crate::vec3::in_bounds(origin, crate::vec3::VEC_BOUND as int),
                0 <= i <= self.values@.len(),
                skipped <= k,
                k < self.len,
                skipped == spec_buckets_items(self.values@.take(i as int)).len(),
            decreases self.values@.len() - i,
        {
            let blen = self.values[i].values.len();
            if k - skipped < blen {
                let idx = k - skipped;
                let sample = self.values[i].values[idx].random(origin, rng);
                proof {
                    lemma_buckets_split(self.values@, i as int);
                    assert(self.values@.subrange(0, i as int) =~= self.values@.take(i as int));
                    assert(spec_items(*self)[k as int] == self.values@[i as int].values@[
                    idx as int]);
                }
                return sample;
            }
            proof {
                assert(self.values@.take(i as int + 1).drop_last() =~= self.values@.take(i as int));
            }
            skipped = skipped + blen;
            i = i + 1;
        }
        // The chosen index lies below the total count, so the walk cannot
        // run out of buckets.
        proof {
            assert(self.values@.take(self.values@.len() as int) =~= self.values@);
            assert(false);
        }
        crate::vec3::Vec3 { x: crate::vec3::Q, y: 0, z: 0 }
    }
}

/// A capped sum keeps the running accumulator inside `i128`.
proof fn lemma_seq_pdf_abs_bound(s: Seq<Primitive>, origin: crate::vec3::Point3, direction: crate::vec3::Vec3)
    ensures
        spec_seq_pdf(s, origin, direction) <= s.len() * 0x10000000000,
{
    lemma_seq_pdf_bound(s, origin, direction);
}

/// A nonnegative sum bounded by `n * m` divides by `n` to within `[0, m]`.
proof fn lemma_div_le_each(sum: int, n: int, m: int)
    requires
        1 <= n,
        0 <= m,
        0 <= sum <= n * m,
    ensures
        0 <= sum / n <= m,
{
    vstd::arithmetic::div_mod::lemma_div_pos_is_pos(sum, n);
    vstd::arithmetic::div_mod::lemma_multiply_divide_le(sum, n, m);
}

/// Appending one bucket appends its contents.
proof fn lemma_buckets_push(s: Seq<RawHittableVec>, b: RawHittableVec)
    ensures
        spec_buckets_items(s.push(b)) =~= spec_buckets_items(s) + b.values@,
{
    assert(s.push(b).drop_last() =~= s);
}

/// Append one non-empty side bucket to a list under construction, keeping
/// the list invariant.
fn push_side(list: &mut HittableList, bucket: RawHittableVec)
    requires
        list_wf(*old(list)),
        raw_vec_wf(bucket),
        bucket.values@.len() > 0,
        old(list).len + bucket.values@.len() < 0xffffffff,
        forall|i: int|
            0 <= i < old(list).values@.len() ==> spec_kind_rank(
                (#[trigger] old(list).values@[i]).kind,
            ) < spec_kind_rank(bucket.kind),
    ensures
        list_wf(*final(list)),
        final(list).values@ == old(list).values@.push(bucket),
        spec_items(*final(list)) == spec_items(*old(list)) + bucket.values@,
        final(list).len == old(list).len + bucket.values@.len(),
{
    broadcast use vstd::seq_lib::group_seq_properties;

    let ghost old_items = spec_items(*old(list));
    let bbox = bucket.get_aabbox();
    let new_box = match &list.aabbox {
        Some(b) => b.enclose(&bbox),
        None => bbox,
    };
    let blen = bucket.len();
    list.len = list.len + blen;
    list.values.push(bucket);
    list.aabbox = Some(new_box);
    proof {
        lemma_buckets_push(old(list).values@, bucket);
        assert(spec_items(*list) =~= old_items + bucket.values@);
        // Containment: old items sit inside the grown box, new ones inside
        // the bucket box which the grown box encloses.
        assert forall|k: int| 0 <= k < spec_items(*list).len() implies box_contained(
            spec_primitive_box(#[trigger] spec_items(*list)[k]),
            new_box,
        ) by {
            if k < old_items.len() {
                assert(spec_items(*list)[k] == old_items[k]);
                assert(box_contained(
                    spec_primitive_box(old_items[k]),
                    old(list).aabbox.unwrap(),
                ));
            } else {
                assert(spec_items(*list)[k] == bucket.values@[k - old_items.len()]);
            }
        }
    }
}

/// Lexicographic order on `(start, end)` axis intervals.
pub open spec fn pair_lte(a: (i64, i64), b: (i64, i64)) -> bool {
    a.0 < b.0 || (a.0 == b.0 && a.1 <= b.1)
}

/// Nondecreasing in the lexicographic interval order.
pub open spec fn sorted_pairs(s: Seq<(i64, i64)>) -> bool {
    forall|i: int, j: int| 0 <= i < j < s.len() ==> pair_lte(#[trigger] s[i], #[trigger] s[j])
}

/// The `(start, end)` interval of each primitive's box on one axis.
pub open spec fn spec_start_end(s: Seq<Primitive>, axis: crate::aaplane::Axis) -> Seq<(i64, i64)>
    decreases s.len(),
{
    if s.len() == 0 {
        Seq::empty()
    } else {
        spec_start_end(s.drop_last(), axis).push(
            (
                crate::aabox::spec_axis_start(spec_primitive_box(s.last()), axis),
                crate::aabox::spec_axis_end(spec_primitive_box(s.last()), axis),
            ),
        )
    }
}

/// The split coordinate is a median start: in some sorting of the per-axis
/// intervals it sits at the middle index.
pub open spec fn is_median_start(items: Seq<Primitive>, plane: AAPlane) -> bool {
    exists|ss: Seq<(i64, i64)>|
        sorted_pairs(ss) && ss.to_multiset() == spec_start_end(items, plane.axis).to_multiset()
            && plane.coord == ss[(items.len() / 2) as int].0
}

/// How many intervals of `s` start strictly below `x`.
pub open spec fn count_below(s: Seq<(i64, i64)>, x: i64) -> int
    decreases s.len(),
{
    if s.len() == 0 {
        0
    } else {
        count_below(s.drop_last(), x) + if s.last().0 < x {
            1int
        } else {
            0int
        }
    }
}

/// The three heuristic ingredients of one axis, witnessed by a sorting of
/// its intervals: `coord` is the median start; `balance` is how far a cut at
/// the median misses an even count split; `extent` spans from the smallest
/// start to the end of the last sorted interval.
pub open spec fn is_axis_measure(
    items: Seq<Primitive>,
    axis: crate::aaplane::Axis,
    coord: i64,
    balance: i64,
    extent: i128,
) -> bool {
    exists|ss: Seq<(i64, i64)>|
        {
            &&& sorted_pairs(ss)
            &&& #[trigger] ss.to_multiset() == spec_start_end(items, axis).to_multiset()
            &&& coord == ss[(items.len() / 2) as int].0
            &&& balance == vstd::math::abs(ss.len() - 2 * count_below(ss, coord))
            &&& extent == ss.last().1 - ss.first().0
        }
}

/// The plane the split heuristic prefers, given each axis's median
/// coordinate, count balance and extent: the earliest axis whose
/// `(balance, extent)` pair is lexicographically smallest.
pub open spec fn spec_preferred_plane(
    x_c: i64,
    x_b: i64,
    x_e: i128,
    y_c: i64,
    y_b: i64,
    y_e: i128,
    z_c: i64,
    z_b: i64,
    z_e: i128,
) -> AAPlane {
    if y_b < x_b || (y_b == x_b && y_e < x_e) {
        if z_b < y_b || (z_b == y_b && z_e < y_e) {
            AAPlane { coord: z_c, axis: crate::aaplane::Axis::Z }
        } else {
            AAPlane { coord: y_c, axis: crate::aaplane::Axis::Y }
        }
    } else {
        if z_b < x_b || (z_b == x_b && z_e < x_e) {
            AAPlane { coord: z_c, axis: crate::aaplane::Axis::Z }
        } else {
            AAPlane { coord: x_c, axis: crate::aaplane::Axis::X }
        }
    }
}

/// Intervals distribute over concatenation.
proof fn lemma_start_end_concat(a: Seq<Primitive>, b: Seq<Primitive>, axis: crate::aaplane::Axis)
    ensures
        spec_start_end(a + b, axis) =~= spec_start_end(a, axis) + spec_start_end(b, axis),
    decreases b.len(),
{
    if b.len() == 0 {
        assert(a + b =~= a);
    } else {
        lemma_start_end_concat(a, b.drop_last(), axis);
        assert((a + b).drop_last() =~= a + b.drop_last());
        assert((a + b).last() == b.last());
    }
}

/// The first position in the sorted prefix `v[..i]` where `x` no longer
/// compares above the element.
fn find_insert_pos(v: &Vec<(i64, i64)>, i: usize, x: (i64, i64)) -> (j: usize)
    requires
        i <= v@.len(),
    ensures
        j <= i,
        forall|k: int| 0 <= k < j ==> pair_lte(#[trigger] v@[k], x),
        j < i ==> !pair_lte(v@[j as int], x),
{
    let mut j: usize = 0;
    while j < i
        invariant
            i <= v@.len(),
            0 <= j <= i,
            forall|k: int| 0 <= k < j ==> pair_lte(#[trigger] v@[k], x),
        decreases i - j,
    {
        let c = v[j];
        if !(c.0 < x.0 || (c.0 == x.0 && c.1 <= x.1)) {
            return j;
        }
        j = j + 1;
    }
    j
}

/// Insertion sort on axis intervals: same contents, nondecreasing order.
fn sort_pairs(v: &mut Vec<(i64, i64)>)
    ensures
        sorted_pairs(final(v)@),
        final(v)@.to_multiset() =~= old(v)@.to_multiset(),
        final(v)@.len() == old(v)@.len(),
{
    broadcast use group_seq_properties;

    let mut i: usize = 1;
    while i < v.len()
        invariant
            i >= 1,
            v@.len() > 0 ==> i <= v@.len(),
            v@.len() > 0 ==> sorted_pairs(v@.take(i as int)),
            v@.to_multiset() =~= old(v)@.to_multiset(),
            v@.len() == old(v)@.len(),
        decreases v@.len() - i,
    {
        let ghost before = v@;
        let x = v.remove(i);
        let j = find_insert_pos(v, i, x);
        v.insert(j, x);
        proof {
            lemma_sort_step(before, v@, i as int, j as int, x);
        }
        i = i + 1;
    }
    proof {
        if v@.len() > 0 {
            assert(v@.take(v@.len() as int) =~= v@);
        }
    }
}

/// One insertion-sort step: removing `x` at `i` and re-inserting it at its
/// place `j` inside the sorted prefix keeps the contents and sorts one more
/// element.
proof fn lemma_sort_step(
    before: Seq<(i64, i64)>,
    after: Seq<(i64, i64)>,
    i: int,
    j: int,
    x: (i64, i64),
)
    requires
        0 <= i < before.len(),
        before[i] == x,
        sorted_pairs(before.take(i)),
        0 <= j <= i,
        after == before.remove(i).insert(j, x),
        forall|k: int| 0 <= k < j ==> pair_lte(#[trigger] before.remove(i)[k], x),
        j < i ==> !pair_lte(before.remove(i)[j], x),
    ensures
        sorted_pairs(after.take(i + 1)),
        after.to_multiset() =~= before.to_multiset(),
        after.len() == before.len(),
{
    broadcast use group_seq_properties;

    let mid = before.remove(i);
    assert(mid.to_multiset() =~= before.to_multiset().remove(x));
    assert(after =~= mid.subrange(0, j) + Seq::<(i64, i64)>::empty().push(x) + mid.subrange(
        j,
        mid.len() as int,
    ));
    lemma_concat3_insert(mid.subrange(0, j), Seq::empty(), mid.subrange(j, mid.len() as int), x);
    assert(mid.subrange(0, j) + Seq::<(i64, i64)>::empty() + mid.subrange(j, mid.len() as int)
        =~= mid);
    assert(after.to_multiset() =~= mid.to_multiset().insert(x));
    assert(before.to_multiset().count(x) > 0) by {
        assert(before.contains(x));
    }
    assert(after.to_multiset() =~= before.to_multiset());
    // Order: the prefix up to i survives the removal; x sits between the
    // parts it belongs between.
    assert(forall|k: int| 0 <= k < i ==> #[trigger] mid[k] == before[k]);
    assert forall|a: int, b: int| 0 <= a < b < i + 1 implies pair_lte(
        #[trigger] after.take(i + 1)[a],
        #[trigger] after.take(i + 1)[b],
    ) by {
        let av = after.take(i + 1)[a];
        let bv = after.take(i + 1)[b];
        assert(a < j ==> av == mid[a]);
        assert(a == j ==> av == x);
        assert(a > j ==> av == mid[a - 1]);
        assert(b < j ==> bv == mid[b]);
        assert(b == j ==> bv == x);
        assert(b > j ==> bv == mid[b - 1]);
        if b == j {
            assert(pair_lte(mid[a], x));
        } else if a == j && b > j {
            if j < i {
                assert(!pair_lte(mid[j], x));
                if b - 1 > j {
                    assert(pair_lte(mid[j], mid[b - 1]));
                }
            }
        } else if a < j && b > j {
            assert(pair_lte(mid[a], x));
            if j < i {
                assert(!pair_lte(mid[j], x));
                if b - 1 > j {
                    assert(pair_lte(mid[j], mid[b - 1]));
                }
            }
        }
    }
}

impl HittableList {
    /// The per-axis box intervals of every stored primitive.
    fn collect_pairs(&self, axis: crate::aaplane::Axis) -> (v: Vec<(i64, i64)>)
        requires
            list_wf(*self),
        ensures
            v@ == spec_start_end(spec_items(*self), axis),
    {
        let mut v: Vec<(i64, i64)> = Vec::new();
        let mut i: usize = 0;
        proof {
            assert(self.values@.take(0) =~= Seq::<RawHittableVec>::empty());
            assert(spec_start_end(Seq::empty(), axis) =~= Seq::<(i64, i64)>::empty());
        }
        while i < self.values.len()
            invariant
                list_wf(*self),
                0 <= i <= self.values@.len(),
                v@ == spec_start_end(spec_buckets_items(self.values@.take(i as int)), axis),
            decreases self.values@.len() - i,
        {
            let ghost pre_items = spec_buckets_items(self.values@.take(i as int));
            let ghost bucket_items = self.values@[i as int].values@;
            let mut j: usize = 0;
            proof {
                assert(pre_items + bucket_items.take(0) =~= pre_items);
            }
            while j < self.values[i].values.len()
                invariant
                    list_wf(*self),
                    0 <= i < self.values@.len(),
                    0 <= j <= bucket_items.len(),
                    pre_items == spec_buckets_items(self.values@.take(i as int)),
                    bucket_items == self.values@[i as int].values@,
                    v@ == spec_start_end(pre_items + bucket_items.take(j as int), axis),
                decreases bucket_items.len() - j,
            {
                let b = self.values[i].values[j].get_aabbox();
                let (s, e) = b.axis(axis);
                proof {
                    let sofar = pre_items + bucket_items.take(j as int);
                    assert(sofar.push(bucket_items[j as int]) =~= pre_items + bucket_items.take(
                        j as int + 1,
                    ));
                    assert(sofar.push(bucket_items[j as int]).drop_last() =~= sofar);
                }
                v.push((s, e));
                j = j + 1;
            }
            proof {
                assert(bucket_items.take(bucket_items.len() as int) =~= bucket_items);
                assert(self.values@.take(i as int + 1).drop_last() =~= self.values@.take(i as int));
                assert(spec_buckets_items(self.values@.take(i as int + 1)) =~= pre_items
                    + bucket_items);
            }
            i = i + 1;
        }
        proof {
            assert(self.values@.take(self.values@.len() as int) =~= self.values@);
        }
        v
    }

    /// The median start, balance and extent of one axis; the heuristic
    /// ingredients of the split selection.
    fn axis_candidate(&self, axis: crate::aaplane::Axis) -> (r: (i64, i64, i128))
        requires
            list_wf(*self),
            self.len > 0,
            self.len < 0xffffffff,
        ensures
            is_median_start(spec_items(*self), AAPlane { coord: r.0, axis }),
            is_axis_measure(spec_items(*self), axis, r.0, r.1, r.2),
    {
        let mut pairs = self.collect_pairs(axis);
        proof {
            lemma_start_end_len(spec_items(*self), axis);
        }
        sort_pairs(&mut pairs);
        proof {
            Seq::to_multiset_ensures(pairs@);
            Seq::to_multiset_ensures(spec_start_end(spec_items(*self), axis));
        }
        let mid = pairs.len() / 2;
        let median = pairs[mid].0;
        // Balance: how far the median leaves an even count split.
        let mut pp: usize = 0;
        let mut k: usize = 0;
        proof {
            assert(pairs@.take(0) =~= Seq::<(i64, i64)>::empty());
        }
        while k < pairs.len()
            invariant
                0 <= k <= pairs@.len(),
                0 <= pp <= k,
                pp == count_below(pairs@.take(k as int), median),
            decreases pairs@.len() - k,
        {
            proof {
                assert(pairs@.take(k as int + 1).drop_last() =~= pairs@.take(k as int));
                assert(pairs@.take(k as int + 1).last() == pairs@[k as int]);
            }
            if pairs[k].0 < median {
                pp = pp + 1;
            }
            k = k + 1;
        }
        proof {
            assert(pairs@.len() < 0xffffffff);
            assert(pairs@.take(pairs@.len() as int) =~= pairs@);
        }
        let balance_raw: i64 = (pairs.len() as i64) - 2 * (pp as i64);
        let balance: i64 = if balance_raw < 0 {
            -balance_raw
        } else {
            balance_raw
        };
        let extent: i128 = (pairs[pairs.len() - 1].1 as i128) - (pairs[0].0 as i128);
        proof {
            let ghost ss = pairs@;
            assert(sorted_pairs(ss));
            assert(ss.to_multiset() == spec_start_end(spec_items(*self), axis).to_multiset());
            assert(median == ss[(spec_items(*self).len() / 2) as int].0);
            assert(balance == vstd::math::abs(ss.len() - 2 * count_below(ss, median)));
            assert(extent == ss.last().1 - ss.first().0);
        }
        (median, balance, extent)
    }

    /// Pick the axis and median coordinate that split the collection most
    /// evenly (smallest count imbalance, then smallest extent, earlier axis
    /// on full ties), and partition by that plane. The empty collection
    /// splits at the zero plane of the first axis without consulting any
    /// bucket.
    pub fn best_split(self) -> (res: (HittableList, HittableList, AAPlane))
        requires
            list_wf(self),
            self.len < 0xffffffff,
        ensures
            list_wf(res.0),
            list_wf(res.1),
            spec_items(res.0) == spec_left_part(spec_items(self), res.2),
            spec_items(res.1) == spec_right_part(spec_items(self), res.2),
            res.0.len + res.1.len == self.len,
            self.len > 0 ==> is_median_start(spec_items(self), res.2),
            self.len == 0 ==> res.2 == (AAPlane { coord: 0, axis: crate::aaplane::Axis::X }),
            self.len > 0 ==> exists|
                x_c: i64,
                x_b: i64,
                x_e: i128,
                y_c: i64,
                y_b: i64,
                y_e: i128,
                z_c: i64,
                z_b: i64,
                z_e: i128,
            |
                {
                    &&& #[trigger] is_axis_measure(
                        spec_items(self),
                        crate::aaplane::Axis::X,
                        x_c,
                        x_b,
                        x_e,
                    )
                    &&& #[trigger] is_axis_measure(
                        spec_items(self),
                        crate::aaplane::Axis::Y,
                        y_c,
                        y_b,
                        y_e,
                    )
                    &&& #[trigger] is_axis_measure(
                        spec_items(self),
                        crate::aaplane::Axis::Z,
                        z_c,
                        z_b,
                        z_e,
                    )
                    &&& res.2 == spec_preferred_plane(x_c, x_b, x_e, y_c, y_b, y_e, z_c, z_b, z_e)
                },
    {
        if self.is_empty() {
            let plane = AAPlane { coord: 0, axis: crate::aaplane::Axis::X };
            let (left, right) = self.split_by(plane);
            return (left, right, plane);
        }
        let (cx, bx, ex) = self.axis_candidate(crate::aaplane::Axis::X);
        let (cy, cb, ey) = self.axis_candidate(crate::aaplane::Axis::Y);
        let (cz, bz, ez) = self.axis_candidate(crate::aaplane::Axis::Z);
        let mut best_axis = crate::aaplane::Axis::X;
        let mut best_coord = cx;
        let mut best_balance = bx;
        let mut best_extent = ex;
        if cb < best_balance || (cb == best_balance && ey < best_extent) {
            best_axis = crate::aaplane::Axis::Y;
            best_coord = cy;
            best_balance = cb;
            best_extent = ey;
        }
        if bz < best_balance || (bz == best_balance && ez < best_extent) {
            best_axis = crate::aaplane::Axis::Z;
            best_coord = cz;
            best_balance = bz;
            best_extent = ez;
        }
        let plane = AAPlane { coord: best_coord, axis: best_axis };
        proof {
            assert(plane == spec_preferred_plane(cx, bx, ex, cy, cb, ey, cz, bz, ez));
        }
        let (left, right) = self.split_by(plane);
        (left, right, plane)
    }
}

/// The interval list is as long as the item list.
proof fn lemma_start_end_len(s: Seq<Primitive>, axis: crate::aaplane::Axis)
    ensures
        spec_start_end(s, axis).len() == s.len(),
    decreases s.len(),
{
    if s.len() > 0 {
        lemma_start_end_len(s.drop_last(), axis);
    }
}

/// Splitting conserves the collection: the two sides' counts sum to the
/// original, and together they carry exactly the original primitives, none
/// duplicated, none lost.
pub proof fn lemma_split_conservation(s: Seq<Primitive>, plane: AAPlane)
    ensures
        spec_left_part(s, plane).len() + spec_right_part(s, plane).len() == s.len(),
        spec_left_part(s, plane).to_multiset().add(spec_right_part(s, plane).to_multiset())
            =~= s.to_multiset(),
{
    lemma_partition(s, plane);
}

/// Summed areas distribute over concatenation.
proof fn lemma_seq_area_concat(a: Seq<Primitive>, b: Seq<Primitive>)
    ensures
        spec_seq_area(a + b) == spec_seq_area(a) + spec_seq_area(b),
    decreases b.len(),
{
    if b.len() == 0 {
        assert(a + b =~= a);
    } else {
        lemma_seq_area_concat(a, b.drop_last());
        assert((a + b).drop_last() =~= a + b.drop_last());
        assert((a + b).last() == b.last());
    }
}

/// The items of a prefix are no more numerous than all items.
proof fn lemma_buckets_prefix_items_len(s: Seq<RawHittableVec>, i: int)
    requires
        0 <= i <= s.len(),
    ensures
        spec_buckets_items(s.take(i)).len() <= spec_buckets_items(s).len(),
{
    lemma_buckets_split2(s, i);
    assert(s.subrange(0, i) =~= s.take(i));
}

/// Splicing one element into the middle of a concatenation inserts it into
/// the multiset and grows the length by one.
pub proof fn lemma_concat3_insert<T>(a: Seq<T>, m: Seq<T>, b: Seq<T>, x: T)
    ensures
        (a + m.push(x) + b).to_multiset() =~= (a + m + b).to_multiset().insert(x),
        (a + m.push(x) + b).len() == (a + m + b).len() + 1,
        forall|k: int|
            0 <= k < (a + m.push(x) + b).len() ==> (#[trigger] (a + m.push(x) + b)[k]) == x || (a
                + m + b).contains((a + m.push(x) + b)[k]),
{
    broadcast use group_seq_properties;

    vstd::seq_lib::lemma_multiset_commutative(a + m.push(x), b);
    vstd::seq_lib::lemma_multiset_commutative(a, m.push(x));
    vstd::seq_lib::lemma_multiset_commutative(a + m, b);
    vstd::seq_lib::lemma_multiset_commutative(a, m);
    assert(m.push(x).to_multiset() =~= m.to_multiset().insert(x));
    assert((a + m.push(x) + b).to_multiset() =~= (a + m + b).to_multiset().insert(x));
    assert(forall|k: int|
        0 <= k < (a + m.push(x) + b).len() ==> (#[trigger] (a + m.push(x) + b)[k]) == x || (a + m
            + b).contains((a + m.push(x) + b)[k])) by {
        assert(forall|k: int| 0 <= k < a.len() ==> (a + m.push(x) + b)[k] == (a + m + b)[k]);
        assert(forall|k: int|
            a.len() <= k < a.len() + m.len() ==> (a + m.push(x) + b)[k] == (a + m + b)[k]);
        assert((a + m.push(x) + b)[a.len() as int + m.len() as int] == x);
        assert(forall|k: int|
            a.len() + m.len() < k < (a + m.push(x) + b).len() ==> (a + m.push(x) + b)[k] == (a + m
                + b)[k - 1]);
    }
}

/// The bucket contents split at a boundary.
pub proof fn lemma_buckets_split2(s: Seq<RawHittableVec>, i: int)
    requires
        0 <= i <= s.len(),
    ensures
        spec_buckets_items(s) =~= spec_buckets_items(s.subrange(0, i)) + spec_buckets_items(
            s.subrange(i, s.len() as int),
        ),
    decreases s.len(),
{
    if i == s.len() {
        assert(s.subrange(0, i) =~= s);
        assert(s.subrange(i, s.len() as int) =~= Seq::<RawHittableVec>::empty());
    } else if s.len() > 0 {
        let pre = s.drop_last();
        lemma_buckets_split2(pre, i);
        assert(pre.subrange(0, i) =~= s.subrange(0, i));
        assert(pre.subrange(i, pre.len() as int) =~= s.subrange(i, s.len() as int).drop_last());
        let tail = s.subrange(i, s.len() as int);
        assert(tail.len() > 0);
        assert(tail.last() == s.last());
    }
}

/// After an add, every stored box sits inside the freshly grown cached box.
proof fn lemma_add_containment(old_l: HittableList, new_l: HittableList, x: Primitive, nb: AABBox)
    requires
        list_wf(old_l),
        primitive_wf(x),
        box_contained(spec_primitive_box(x), nb),
        match old_l.aabbox {
            Some(ob) => box_contained(ob, nb),
            None => true,
        },
        forall|k: int|
            0 <= k < spec_items(new_l).len() ==> (#[trigger] spec_items(new_l)[k]) == x
                || spec_items(old_l).contains(spec_items(new_l)[k]),
    ensures
        forall|k: int|
            0 <= k < spec_items(new_l).len() ==> box_contained(
                spec_primitive_box(#[trigger] spec_items(new_l)[k]),
                nb,
            ),
{
    assert forall|k: int| 0 <= k < spec_items(new_l).len() implies box_contained(
        spec_primitive_box(#[trigger] spec_items(new_l)[k]),
        nb,
    ) by {
        let item = spec_items(new_l)[k];
        if item != x {
            assert(spec_items(old_l).contains(item));
            let j = choose|j: int|
                0 <= j < spec_items(old_l).len() && spec_items(old_l)[j] == item;
            assert(box_contained(spec_primitive_box(item), old_l.aabbox.unwrap()));
        }
    }
}

/// The position of the first bucket whose tag rank reaches `rank`; the
/// insertion point that keeps the buckets sorted.
fn find_bucket_pos(values: &Vec<RawHittableVec>, rank: u8) -> (i: usize)
    ensures
        0 <= i <= values@.len(),
        forall|k: int| 0 <= k < i ==> spec_kind_rank((#[trigger] values@[k]).kind) < rank,
        i < values@.len() ==> spec_kind_rank(values@[i as int].kind) >= rank,
{
    let mut i: usize = 0;
    while i < values.len()
        invariant
            0 <= i <= values@.len(),
            forall|k: int| 0 <= k < i ==> spec_kind_rank((#[trigger] values@[k]).kind) < rank,
        decreases values@.len() - i,
    {
        let rk = crate::entities::kind_rank(values[i].kind);
        if rk >= rank {
            return i;
        }
        i = i + 1;
    }
    i
}

/// Tag ranks are distinct for distinct tags.
pub proof fn lemma_kind_rank_injective(a: PrimitiveKind, b: PrimitiveKind)
    requires
        spec_kind_rank(a) == spec_kind_rank(b),
    ensures
        a == b,
{
}

/// Containment is reflexive.
pub proof fn lemma_box_contained_refl(b: AABBox)
    ensures
        box_contained(b, b),
{
}

/// The summed area of a bounded-length sequence stays inside `i128`.
proof fn lemma_seq_area_bound(s: Seq<Primitive>)
    requires
        forall|i: int| 0 <= i < s.len() ==> primitive_wf(#[trigger] s[i]),
        s.len() <= 0x10000000000,
    ensures
        0 <= spec_seq_area(s) <= 0x10000000000000000000000000,  // 2^100
    decreases s.len(),
{
    if s.len() > 0 {
        lemma_seq_area_bound_inner(s);
        assert(s.len() * 0x1000000000000000 <= 0x10000000000 * 0x1000000000000000)
            by (nonlinear_arith)
            requires
                s.len() <= 0x10000000000,
        ;
    }
}

/// Inductive core: the summed area grows by at most one box area per item.
proof fn lemma_seq_area_bound_inner(s: Seq<Primitive>)
    requires
        forall|i: int| 0 <= i < s.len() ==> primitive_wf(#[trigger] s[i]),
    ensures
        0 <= spec_seq_area(s) <= s.len() * 0x1000000000000000,  // 2^60 each
    decreases s.len(),
{
    if s.len() > 0 {
        lemma_seq_area_bound_inner(s.drop_last());
        crate::entities::lemma_primitive_box_wf(s.last());
        lemma_area_bound(spec_primitive_box(s.last()));
        assert((s.len() - 1) * 0x1000000000000000 + 0x1000000000000000 == s.len()
            * 0x1000000000000000) by (nonlinear_arith);
    } else {
        assert(s.len() * 0x1000000000000000 == 0) by (nonlinear_arith)
            requires
                s.len() == 0,
        ;
    }
}

/// The surface area of a well-formed box is nonnegative and bounded.
proof fn lemma_area_bound(b: AABBox)
    requires
        aabbox_wf(b),
    ensures
        0 <= crate::aabox::spec_surface_area(b) <= 0x1000000000000000,  // 2^60
{
    let dx = b.x_max - b.x_min;
    let dy = b.y_max - b.y_min;
    let dz = b.z_max - b.z_min;
    assert(0 <= dx * dy <= 0x100000000000000 && 0 <= dx * dz <= 0x100000000000000 && 0 <= dy * dz
        <= 0x100000000000000) by (nonlinear_arith)
        requires
            0 <= dx <= 0x10000000,
            0 <= dy <= 0x10000000,
            0 <= dz <= 0x10000000,
    ;
}

} // verus!
